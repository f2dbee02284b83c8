//! The memory facade: one entity store, one event store, the configured
//! scan limit and the operation counters, behind the four operations the
//! protocol needs.
//!
//! The stores are ownership-isolated: no caller ever holds a reference
//! into them, reads hand out full copies, and writes replace whole
//! records, so a copy handed out earlier can never show a half-written
//! record.

use vstd::prelude::*;

use crate::records::Entity;
use crate::records::EntityView;
use crate::records::Event;
use crate::records::EventView;
use crate::stats::sat_inc;
use crate::stats::StatsCounter;
use crate::store::count_key;
use crate::store::lemma_get_after_upsert;
use crate::store::lemma_load_preserves;
use crate::store::lemma_scan_pairs_membership;
use crate::store::lemma_scan_prefix_properties;
use crate::store::lemma_upsert_preserves;
use crate::store::lemma_upsert_single_record;
use crate::store::pairs_view;
use crate::store::scan_values;
use crate::store::sorted_by_key;
use crate::store::spec_get;
use crate::store::spec_load;
use crate::store::spec_scan;
use crate::store::spec_upsert;
use crate::store::IndexedStore;
use crate::strutil::is_prefix;
use crate::strutil::lex_lt;

verus! {

/// A point-in-time view of the store sizes and counters, for monitoring.
pub struct MemoryStats {
    pub entity_count: u64,
    pub event_count: u64,
    pub lookup_count: u64,
    pub error_count: u64,
    pub last_access: u64,
}

/// The shared in-memory state: two independent keyed collections plus
/// operation counters.
pub struct Memory {
    entities: IndexedStore<Entity>,
    events: IndexedStore<Event>,
    event_limit: usize,
    stats: StatsCounter,
}

impl Memory {
    /// The entity collection: `(name, record)` pairs in ascending name order.
    pub closed spec fn entities_view(&self) -> Seq<(Seq<char>, EntityView)> {
        self.entities@
    }

    /// The event collection: `(id, record)` pairs in ascending id order.
    pub closed spec fn events_view(&self) -> Seq<(Seq<char>, EventView)> {
        self.events@
    }

    /// The configured maximum number of records one prefix scan returns.
    pub closed spec fn spec_event_limit(&self) -> usize {
        self.event_limit
    }

    pub closed spec fn lookup_count(&self) -> u64 {
        self.stats.lookup_count()
    }

    pub closed spec fn error_count(&self) -> u64 {
        self.stats.error_count()
    }

    pub closed spec fn last_access(&self) -> u64 {
        self.stats.last_access()
    }

    /// Both collections keep their keys strictly ascending, every entity
    /// sits under its own name, and every event under its own id.
    pub open spec fn wf(&self) -> bool {
        &&& sorted_by_key(self.entities_view())
        &&& sorted_by_key(self.events_view())
        &&& forall|i: int|
            0 <= i < self.entities_view().len() ==> (#[trigger] self.entities_view()[i]).0
                == self.entities_view()[i].1.name
        &&& forall|i: int|
            0 <= i < self.events_view().len() ==> (#[trigger] self.events_view()[i]).0
                == self.events_view()[i].1.id
    }

    /// An empty memory with the operator-supplied scan limit; `now` seeds
    /// the last-access time.
    pub fn new(event_limit: usize, now: u64) -> (m: Self)
        ensures
            m.wf(),
            m.entities_view() == Seq::<(Seq<char>, EntityView)>::empty(),
            m.events_view() == Seq::<(Seq<char>, EventView)>::empty(),
            m.spec_event_limit() == event_limit,
            m.lookup_count() == 0,
            m.error_count() == 0,
            m.last_access() == now,
    {
        Memory {
            entities: IndexedStore::new(),
            events: IndexedStore::new(),
            event_limit,
            stats: StatsCounter::new(now),
        }
    }

    /// Exact lookup by name at time `now`: a copy of the stored record,
    /// or `None` when the name is absent.  Counts the lookup, and counts
    /// a miss as an error.
    pub fn lookup_entity(&mut self, name: &str, now: u64) -> (r: Option<Entity>)
        requires
            old(self).wf(),
        ensures
            final(self).wf(),
            final(self).entities_view() == old(self).entities_view(),
            final(self).events_view() == old(self).events_view(),
            final(self).spec_event_limit() == old(self).spec_event_limit(),
            match r {
                Some(e) => spec_get(old(self).entities_view(), name@) == Some(e@),
                None => spec_get(old(self).entities_view(), name@) is None,
            },
            final(self).lookup_count() == sat_inc(old(self).lookup_count()),
            final(self).last_access() == now,
            final(self).error_count() == if spec_get(old(self).entities_view(), name@) is None {
                sat_inc(old(self).error_count())
            } else {
                old(self).error_count()
            },
    {
        self.stats.record_lookup(now);
        let r = self.entities.get(name);
        if r.is_none() {
            self.stats.record_error();
        }
        r
    }

    /// Inserts or replaces the entity under its own name.  Afterwards
    /// exactly one record sits under that name and holds this entity;
    /// every other name answers as before.
    pub fn add_entity(&mut self, entity: Entity)
        requires
            old(self).wf(),
        ensures
            final(self).wf(),
            final(self).entities_view() == spec_upsert(
                old(self).entities_view(),
                entity@.name,
                entity@,
            ),
            count_key(final(self).entities_view(), entity@.name) == 1,
            spec_get(final(self).entities_view(), entity@.name) == Some(entity@),
            forall|k: Seq<char>|
                k != entity@.name ==> spec_get(final(self).entities_view(), k) == spec_get(
                    old(self).entities_view(),
                    k,
                ),
            final(self).events_view() == old(self).events_view(),
            final(self).spec_event_limit() == old(self).spec_event_limit(),
            final(self).lookup_count() == old(self).lookup_count(),
            final(self).error_count() == old(self).error_count(),
            final(self).last_access() == old(self).last_access(),
    {
        let ghost pre = self.entities@;
        let ghost ev = entity@;
        let key = entity.name.clone();
        self.entities.upsert(key, entity);
        proof {
            lemma_upsert_preserves(
                pre,
                ev.name,
                ev,
                |pr: (Seq<char>, EntityView)| pr.0 == pr.1.name,
            );
            lemma_upsert_single_record(pre, ev.name, ev);
            assert forall|k: Seq<char>| k != ev.name implies spec_get(
                spec_upsert(pre, ev.name, ev),
                k,
            ) == spec_get(pre, k) by {
                lemma_get_after_upsert(pre, ev.name, ev, k);
            }
            lemma_get_after_upsert(pre, ev.name, ev, ev.name);
        }
    }

    /// Inserts or replaces the event under its own id.  Afterwards
    /// exactly one record sits under that id and holds this event; every
    /// other id answers as before.
    pub fn add_event(&mut self, event: Event)
        requires
            old(self).wf(),
        ensures
            final(self).wf(),
            final(self).events_view() == spec_upsert(old(self).events_view(), event@.id, event@),
            count_key(final(self).events_view(), event@.id) == 1,
            spec_get(final(self).events_view(), event@.id) == Some(event@),
            forall|k: Seq<char>|
                k != event@.id ==> spec_get(final(self).events_view(), k) == spec_get(
                    old(self).events_view(),
                    k,
                ),
            final(self).entities_view() == old(self).entities_view(),
            final(self).spec_event_limit() == old(self).spec_event_limit(),
            final(self).lookup_count() == old(self).lookup_count(),
            final(self).error_count() == old(self).error_count(),
            final(self).last_access() == old(self).last_access(),
    {
        let ghost pre = self.events@;
        let ghost ev = event@;
        let key = event.id.clone();
        self.events.upsert(key, event);
        proof {
            lemma_upsert_preserves(pre, ev.id, ev, |pr: (Seq<char>, EventView)| pr.0 == pr.1.id);
            lemma_upsert_single_record(pre, ev.id, ev);
            assert forall|k: Seq<char>| k != ev.id implies spec_get(
                spec_upsert(pre, ev.id, ev),
                k,
            ) == spec_get(pre, k) by {
                lemma_get_after_upsert(pre, ev.id, ev, k);
            }
            lemma_get_after_upsert(pre, ev.id, ev, ev.id);
        }
    }

    /// Prefix scan over the events at time `now`: copies of the first
    /// `event_limit` records whose id starts with `prefix`, in strictly
    /// ascending id order.  Counts the lookup; an empty result is not an
    /// error.
    pub fn find_events(&mut self, prefix: &str, now: u64) -> (r: Vec<Event>)
        requires
            old(self).wf(),
        ensures
            final(self).wf(),
            final(self).entities_view() == old(self).entities_view(),
            final(self).events_view() == old(self).events_view(),
            final(self).spec_event_limit() == old(self).spec_event_limit(),
            r@.map_values(|e: Event| e@) == scan_values(
                spec_scan(
                    old(self).events_view(),
                    prefix@,
                    old(self).spec_event_limit() as nat,
                ),
            ),
            r@.len() <= old(self).spec_event_limit(),
            forall|i: int| 0 <= i < r@.len() ==> is_prefix(prefix@, (#[trigger] r@[i])@.id),
            forall|i: int, j: int| 0 <= i < j < r@.len() ==> lex_lt(r@[i]@.id, r@[j]@.id),
            final(self).lookup_count() == sat_inc(old(self).lookup_count()),
            final(self).error_count() == old(self).error_count(),
            final(self).last_access() == now,
    {
        self.stats.record_lookup(now);
        let r = self.events.scan_prefix(prefix, self.event_limit);
        proof {
            let s = self.events@;
            let limit = self.event_limit as nat;
            let pairs = spec_scan(s, prefix@, limit);
            lemma_scan_prefix_properties(s, prefix@, limit);
            lemma_scan_pairs_membership(s, prefix@, limit);
            assert forall|i: int| 0 <= i < pairs.len() implies (#[trigger] pairs[i]).0
                == pairs[i].1.id by {
                let j = choose|j: int| 0 <= j < s.len() && pairs[i] == s[j];
                assert(s[j].0 == s[j].1.id);
            }
            assert(r@.map_values(|e: Event| e@).len() == r@.len());
            assert(scan_values(pairs).len() == pairs.len());
            assert forall|i: int| 0 <= i < r@.len() implies is_prefix(
                prefix@,
                (#[trigger] r@[i])@.id,
            ) by {
                assert(r@.map_values(|e: Event| e@)[i] == r@[i]@);
                assert(scan_values(pairs)[i] == pairs[i].1);
                assert(r@[i]@ == pairs[i].1);
            }
            assert forall|i: int, j: int| 0 <= i < j < r@.len() implies lex_lt(
                r@[i]@.id,
                r@[j]@.id,
            ) by {
                assert(r@.map_values(|e: Event| e@)[i] == r@[i]@);
                assert(r@.map_values(|e: Event| e@)[j] == r@[j]@);
                assert(scan_values(pairs)[i] == pairs[i].1);
                assert(scan_values(pairs)[j] == pairs[j].1);
                assert(lex_lt(pairs[i].0, pairs[j].0));
            }
        }
        r
    }

    /// Bulk load of entities: one upsert per record, in input order, so a
    /// later duplicate name wins.  Returns how many records were applied.
    pub fn load_entities(&mut self, list: Vec<Entity>) -> (n: usize)
        requires
            old(self).wf(),
        ensures
            final(self).wf(),
            final(self).entities_view() == spec_load(
                old(self).entities_view(),
                list@.map_values(|e: Entity| (e@.name, e@)),
            ),
            final(self).events_view() == old(self).events_view(),
            final(self).spec_event_limit() == old(self).spec_event_limit(),
            final(self).lookup_count() == old(self).lookup_count(),
            final(self).error_count() == old(self).error_count(),
            final(self).last_access() == old(self).last_access(),
            n == list@.len(),
    {
        let ghost all = list@.map_values(|e: Entity| (e@.name, e@));
        let total = list.len();
        let mut pairs: Vec<(String, Entity)> = Vec::new();
        let mut items = list;
        proof {
            assert(pairs_view(pairs@) =~= all.take(0));
        }
        while items.len() > 0
            invariant
                total == all.len(),
                items@.len() <= total,
                pairs_view(pairs@) == all.take(total - items@.len()),
                forall|j: int|
                    0 <= j < items@.len() ==> (#[trigger] items@[j]@.name, items@[j]@)
                        == all[total - items@.len() + j],
            decreases items@.len(),
        {
            let ghost before = items@;
            let ghost prev = pairs@;
            let e = items.remove(0);
            let key = e.name.clone();
            let ghost kv = (key@, e@);
            proof {
                assert(kv == (before[0]@.name, before[0]@));
                assert(kv == all[total - before.len()]);
            }
            pairs.push((key, e));
            proof {
                assert(pairs_view(pairs@) =~= pairs_view(prev).push(kv));
                assert(all.take(total - items@.len()) =~= all.take(total - before.len()).push(kv));
                assert forall|j: int|
                    0 <= j < items@.len() implies (#[trigger] items@[j]@.name, items@[j]@)
                    == all[total - items@.len() + j] by {
                    assert(items@[j] == before[j + 1]);
                }
            }
        }
        proof {
            assert(all.take(total as int) =~= all);
            assert forall|i: int| 0 <= i < all.len() implies (#[trigger] all[i]).0
                == all[i].1.name by {
                assert(all[i] == (list@[i]@.name, list@[i]@));
            }
            lemma_load_preserves(
                self.entities@,
                all,
                |pr: (Seq<char>, EntityView)| pr.0 == pr.1.name,
            );
        }
        self.entities.bulk_load(pairs)
    }

    /// Bulk load of events: one upsert per record, in input order, so a
    /// later duplicate id wins.  Returns how many records were applied.
    pub fn load_events(&mut self, list: Vec<Event>) -> (n: usize)
        requires
            old(self).wf(),
        ensures
            final(self).wf(),
            final(self).events_view() == spec_load(
                old(self).events_view(),
                list@.map_values(|e: Event| (e@.id, e@)),
            ),
            final(self).entities_view() == old(self).entities_view(),
            final(self).spec_event_limit() == old(self).spec_event_limit(),
            final(self).lookup_count() == old(self).lookup_count(),
            final(self).error_count() == old(self).error_count(),
            final(self).last_access() == old(self).last_access(),
            n == list@.len(),
    {
        let ghost all = list@.map_values(|e: Event| (e@.id, e@));
        let total = list.len();
        let mut pairs: Vec<(String, Event)> = Vec::new();
        let mut items = list;
        proof {
            assert(pairs_view(pairs@) =~= all.take(0));
        }
        while items.len() > 0
            invariant
                total == all.len(),
                items@.len() <= total,
                pairs_view(pairs@) == all.take(total - items@.len()),
                forall|j: int|
                    0 <= j < items@.len() ==> (#[trigger] items@[j]@.id, items@[j]@) == all[total
                        - items@.len() + j],
            decreases items@.len(),
        {
            let ghost before = items@;
            let ghost prev = pairs@;
            let e = items.remove(0);
            let key = e.id.clone();
            let ghost kv = (key@, e@);
            proof {
                assert(kv == (before[0]@.id, before[0]@));
                assert(kv == all[total - before.len()]);
            }
            pairs.push((key, e));
            proof {
                assert(pairs_view(pairs@) =~= pairs_view(prev).push(kv));
                assert(all.take(total - items@.len()) =~= all.take(total - before.len()).push(kv));
                assert forall|j: int|
                    0 <= j < items@.len() implies (#[trigger] items@[j]@.id, items@[j]@) == all[
                    total - items@.len() + j] by {
                    assert(items@[j] == before[j + 1]);
                }
            }
        }
        proof {
            assert(all.take(total as int) =~= all);
            assert forall|i: int| 0 <= i < all.len() implies (#[trigger] all[i]).0
                == all[i].1.id by {
                assert(all[i] == (list@[i]@.id, list@[i]@));
            }
            lemma_load_preserves(self.events@, all, |pr: (Seq<char>, EventView)| pr.0 == pr.1.id);
        }
        self.events.bulk_load(pairs)
    }

    /// A point-in-time reading of the collection sizes and counters.
    pub fn stats(&self) -> (r: MemoryStats)
        ensures
            r.entity_count == self.entities_view().len(),
            r.event_count == self.events_view().len(),
            r.lookup_count == self.lookup_count(),
            r.error_count == self.error_count(),
            r.last_access == self.last_access(),
    {
        let (lookups, errors, last) = self.stats.snapshot();
        MemoryStats {
            entity_count: self.entities.len() as u64,
            event_count: self.events.len() as u64,
            lookup_count: lookups,
            error_count: errors,
            last_access: last,
        }
    }
}

} // verus!
