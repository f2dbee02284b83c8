//! The indexed store: uniquely-keyed records held in ascending key order,
//! with exact lookup, bounded prefix scan, single-key upsert and bulk load.
//!
//! The abstract model of a store is the sequence of its `(key view, value
//! view)` pairs, strictly sorted by key under [`lex_lt`].  All operations
//! are specified against that sequence.

use vstd::prelude::*;

use crate::strutil::is_prefix;
use crate::strutil::lemma_lex_lt_asymmetric;
use crate::strutil::lemma_lex_lt_irreflexive;
use crate::strutil::lemma_lex_lt_transitive;
use crate::strutil::lemma_lex_lt_trichotomy;
use crate::strutil::lex_lt;
use crate::strutil::str_eq;
use crate::strutil::str_lex_lt;
use crate::strutil::str_starts_with;

verus! {

/// A record type that can live in an [`IndexedStore`]: it has an abstract
/// view, and it hands out copies that preserve that view, so that callers
/// may mutate what they receive without reaching into the store.
pub trait StoreValue: View + Sized {
    /// Returns a copy of the record with the same view.
    fn clone_value(&self) -> (r: Self)
        ensures
            r@ == self@,
    ;
}

/// The keys of `s` are strictly increasing, so each key occurs at most once.
pub open spec fn sorted_by_key<T>(s: Seq<(Seq<char>, T)>) -> bool {
    forall|i: int, j: int| 0 <= i < j < s.len() ==> lex_lt(s[i].0, s[j].0)
}

/// The value stored under `k`: the first pair with key `k`, if any.
pub open spec fn spec_get<T>(s: Seq<(Seq<char>, T)>, k: Seq<char>) -> Option<T>
    decreases s.len(),
{
    if s.len() == 0 {
        None
    } else if s[0].0 == k {
        Some(s[0].1)
    } else {
        spec_get(s.skip(1), k)
    }
}

/// Insert-or-replace under `k`: the pair `(k, v)` takes the sorted position
/// of `k`, and any previous pair under `k` disappears.
pub open spec fn spec_upsert<T>(s: Seq<(Seq<char>, T)>, k: Seq<char>, v: T) -> Seq<
    (Seq<char>, T),
>
    decreases s.len(),
{
    if s.len() == 0 {
        seq![(k, v)]
    } else if lex_lt(k, s[0].0) {
        seq![(k, v)] + s
    } else if s[0].0 == k {
        seq![(k, v)] + s.skip(1)
    } else {
        seq![s[0]] + spec_upsert(s.skip(1), k, v)
    }
}

/// All pairs whose key starts with `p`, in their order in `s`.
pub open spec fn matching<T>(s: Seq<(Seq<char>, T)>, p: Seq<char>) -> Seq<(Seq<char>, T)>
    decreases s.len(),
{
    if s.len() == 0 {
        Seq::empty()
    } else if is_prefix(p, s[0].0) {
        seq![s[0]] + matching(s.skip(1), p)
    } else {
        matching(s.skip(1), p)
    }
}

/// A prefix scan bounded by `limit`: the first `limit` pairs whose key
/// starts with `p`, in their order in `s`.
pub open spec fn spec_scan<T>(s: Seq<(Seq<char>, T)>, p: Seq<char>, limit: nat) -> Seq<
    (Seq<char>, T),
>
    decreases s.len(),
{
    if s.len() == 0 || limit == 0 {
        Seq::empty()
    } else if is_prefix(p, s[0].0) {
        seq![s[0]] + spec_scan(s.skip(1), p, (limit - 1) as nat)
    } else {
        spec_scan(s.skip(1), p, limit)
    }
}

/// Bulk load: one upsert per input pair, in input order, so that on
/// duplicate keys the later pair wins.
pub open spec fn spec_load<T>(s: Seq<(Seq<char>, T)>, items: Seq<(Seq<char>, T)>) -> Seq<
    (Seq<char>, T),
>
    decreases items.len(),
{
    if items.len() == 0 {
        s
    } else {
        spec_load(spec_upsert(s, items[0].0, items[0].1), items.skip(1))
    }
}

/// `spec_upsert` rewrites `s` at the insertion position of `k`: everything
/// strictly before stays, everything after stays, and a pair under `k`
/// itself is replaced rather than kept.
proof fn lemma_upsert_at<T>(s: Seq<(Seq<char>, T)>, k: Seq<char>, v: T, i: int)
    requires
        0 <= i <= s.len(),
        forall|j: int| 0 <= j < i ==> lex_lt(#[trigger] s[j].0, k),
        i < s.len() ==> !lex_lt(s[i].0, k),
    ensures
        i < s.len() && s[i].0 == k ==> spec_upsert(s, k, v) == s.take(i) + seq![(k, v)] + s.skip(
            i + 1,
        ),
        !(i < s.len() && s[i].0 == k) ==> spec_upsert(s, k, v) == s.take(i) + seq![(k, v)]
            + s.skip(i),
    decreases i,
{
    if i == 0 {
        if s.len() == 0 {
            assert(spec_upsert(s, k, v) =~= s.take(0) + seq![(k, v)] + s.skip(0));
        } else if s[0].0 == k {
            assert(spec_upsert(s, k, v) =~= s.take(0) + seq![(k, v)] + s.skip(1));
        } else {
            lemma_lex_lt_trichotomy(k, s[0].0);
            assert(lex_lt(k, s[0].0));
            assert(spec_upsert(s, k, v) =~= s.take(0) + seq![(k, v)] + s.skip(0));
        }
    } else {
        assert(lex_lt(s[0].0, k));
        lemma_lex_lt_asymmetric(s[0].0, k);
        let t = s.skip(1);
        assert forall|j: int| 0 <= j < i - 1 implies lex_lt(#[trigger] t[j].0, k) by {
            assert(t[j] == s[j + 1]);
        }
        if i - 1 < t.len() {
            assert(t[i - 1] == s[i]);
        }
        lemma_upsert_at(t, k, v, i - 1);
        assert(spec_upsert(s, k, v) == seq![s[0]] + spec_upsert(t, k, v));
        if i < s.len() && s[i].0 == k {
            assert(spec_upsert(t, k, v) == t.take(i - 1) + seq![(k, v)] + t.skip(i));
            assert(spec_upsert(s, k, v) =~= s.take(i) + seq![(k, v)] + s.skip(i + 1));
        } else {
            assert(spec_upsert(t, k, v) == t.take(i - 1) + seq![(k, v)] + t.skip(i - 1));
            assert(spec_upsert(s, k, v) =~= s.take(i) + seq![(k, v)] + s.skip(i));
        }
    }
}

/// The store: a vector of key/value pairs kept strictly sorted by key.
pub struct IndexedStore<V> {
    entries: Vec<(String, V)>,
}

impl<V: View> View for IndexedStore<V> {
    type V = Seq<(Seq<char>, <V as View>::V)>;

    closed spec fn view(&self) -> Seq<(Seq<char>, <V as View>::V)> {
        self.entries@.map_values(|e: (String, V)| (e.0@, e.1@))
    }
}

impl<V: StoreValue> IndexedStore<V> {
    /// The store's internal invariant: keys strictly ascending.
    pub open spec fn wf(&self) -> bool {
        sorted_by_key(self@)
    }

    /// Creates an empty store.
    pub fn new() -> (s: Self)
        ensures
            s@ == Seq::<(Seq<char>, <V as View>::V)>::empty(),
            s.wf(),
    {
        let s = IndexedStore { entries: Vec::new() };
        proof {
            assert(s@ =~= Seq::<(Seq<char>, <V as View>::V)>::empty());
        }
        s
    }

    /// The number of records held.
    pub fn len(&self) -> (n: usize)
        ensures
            n == self@.len(),
    {
        self.entries.len()
    }

    /// Exact lookup: a copy of the record stored under `key`, if any.
    pub fn get(&self, key: &str) -> (r: Option<V>)
        requires
            self.wf(),
        ensures
            match r {
                Some(v) => spec_get(self@, key@) == Some(v@),
                None => spec_get(self@, key@) is None,
            },
    {
        let n = self.entries.len();
        let mut i: usize = 0;
        proof {
            assert(self@.skip(0) =~= self@);
        }
        while i < n
            invariant
                n == self.entries@.len(),
                0 <= i <= n,
                spec_get(self@.skip(i as int), key@) == spec_get(self@, key@),
            decreases n - i,
        {
            proof {
                assert(self@.skip(i as int)[0] == self@[i as int]);
                assert(self@.skip(i as int).skip(1) =~= self@.skip(i + 1));
            }
            if str_eq(self.entries[i].0.as_str(), key) {
                let v = self.entries[i].1.clone_value();
                return Some(v);
            }
            i += 1;
        }
        proof {
            assert(self@.skip(n as int) =~= Seq::<(Seq<char>, <V as View>::V)>::empty());
        }
        None
    }

    /// Insert-or-replace: after the call the store holds `value` under
    /// `key`, every other record is unchanged, and the order invariant is
    /// preserved.
    pub fn upsert(&mut self, key: String, value: V)
        requires
            old(self).wf(),
        ensures
            final(self).wf(),
            final(self)@ == spec_upsert(old(self)@, key@, value@),
    {
        let ghost s = self@;
        let ghost k = key@;
        let n = self.entries.len();
        let mut i: usize = 0;
        while i < n && str_lex_lt(self.entries[i].0.as_str(), key.as_str())
            invariant
                n == self.entries@.len(),
                0 <= i <= n,
                s == self@,
                k == key@,
                forall|j: int| 0 <= j < i ==> lex_lt(#[trigger] s[j].0, k),
            decreases n - i,
        {
            i += 1;
        }
        let found = i < n && str_eq(self.entries[i].0.as_str(), key.as_str());
        proof {
            lemma_upsert_at(s, k, value@, i as int);
        }
        if found {
            let _old_pair = self.entries.remove(i);
            self.entries.insert(i, (key, value));
            proof {
                assert(self@ =~= s.take(i as int) + seq![(k, value@)] + s.skip(i as int + 1));
            }
        } else {
            self.entries.insert(i, (key, value));
            proof {
                assert(self@ =~= s.take(i as int) + seq![(k, value@)] + s.skip(i as int));
            }
        }
        proof {
            lemma_upsert_wf(s, k, value@, i as int, found);
        }
    }
}

/// The values of a sequence of key/value pairs, in order.
pub open spec fn scan_values<T>(s: Seq<(Seq<char>, T)>) -> Seq<T> {
    s.map_values(|e: (Seq<char>, T)| e.1)
}

/// The key views of a sequence of records paired with their keys.
pub open spec fn pairs_view<V: View>(rs: Seq<(String, V)>) -> Seq<(Seq<char>, <V as View>::V)> {
    rs.map_values(|e: (String, V)| (e.0@, e.1@))
}

impl<V: StoreValue> IndexedStore<V> {
    /// Bounded prefix scan: copies of the first `limit` records whose key
    /// starts with `prefix`, in ascending key order.  The scan stops as
    /// soon as `limit` records have been collected.
    pub fn scan_prefix(&self, prefix: &str, limit: usize) -> (r: Vec<V>)
        ensures
            r@.map_values(|v: V| v@) == scan_values(spec_scan(self@, prefix@, limit as nat)),
            r@.len() <= limit,
    {
        let n = self.entries.len();
        let mut out: Vec<V> = Vec::new();
        let mut i: usize = 0;
        proof {
            assert(self@.skip(0) =~= self@);
            assert(out@.map_values(|v: V| v@) =~= Seq::<<V as View>::V>::empty());
        }
        while i < n && out.len() < limit
            invariant
                n == self.entries@.len(),
                0 <= i <= n,
                out@.len() <= limit,
                out@.map_values(|v: V| v@) + scan_values(
                    spec_scan(self@.skip(i as int), prefix@, (limit - out@.len()) as nat),
                ) == scan_values(spec_scan(self@, prefix@, limit as nat)),
            decreases n - i,
        {
            let ghost rest = self@.skip(i as int);
            let ghost l2 = (limit - out@.len()) as nat;
            proof {
                assert(rest[0] == self@[i as int]);
                assert(rest.skip(1) =~= self@.skip(i + 1));
            }
            if str_starts_with(self.entries[i].0.as_str(), prefix) {
                let v = self.entries[i].1.clone_value();
                let ghost old_out = out@;
                out.push(v);
                proof {
                    assert(spec_scan(rest, prefix@, l2) == seq![rest[0]] + spec_scan(
                        rest.skip(1),
                        prefix@,
                        (l2 - 1) as nat,
                    ));
                    assert(scan_values(seq![rest[0]] + spec_scan(
                        rest.skip(1),
                        prefix@,
                        (l2 - 1) as nat,
                    )) =~= seq![rest[0].1] + scan_values(
                        spec_scan(rest.skip(1), prefix@, (l2 - 1) as nat),
                    ));
                    assert(out@.map_values(|x: V| x@) =~= old_out.map_values(|x: V| x@).push(v@));
                    assert(out@.map_values(|x: V| x@) + scan_values(
                        spec_scan(self@.skip(i + 1), prefix@, (limit - out@.len()) as nat),
                    ) =~= old_out.map_values(|x: V| x@) + scan_values(
                        spec_scan(rest, prefix@, l2),
                    ));
                }
            } else {
                proof {
                    assert(spec_scan(rest, prefix@, l2) == spec_scan(
                        rest.skip(1),
                        prefix@,
                        l2,
                    ));
                }
            }
            i += 1;
        }
        proof {
            if i == n {
                assert(self@.skip(n as int) =~= Seq::<(Seq<char>, <V as View>::V)>::empty());
            }
            assert(scan_values(
                spec_scan(self@.skip(i as int), prefix@, (limit - out@.len()) as nat),
            ) =~= Seq::<<V as View>::V>::empty());
            assert(out@.map_values(|v: V| v@) =~= scan_values(
                spec_scan(self@, prefix@, limit as nat),
            ));
        }
        out
    }

    /// Bulk load: applies one upsert per input pair, in input order, so
    /// that on duplicate keys the later pair wins.  Returns the number of
    /// records applied.
    pub fn bulk_load(&mut self, records: Vec<(String, V)>) -> (n: usize)
        requires
            old(self).wf(),
        ensures
            final(self).wf(),
            final(self)@ == spec_load(old(self)@, pairs_view(records@)),
            n == records@.len(),
    {
        let ghost all = pairs_view(records@);
        let ghost start = self@;
        let total = records.len();
        let mut items = records;
        let mut n: usize = 0;
        while items.len() > 0
            invariant
                self.wf(),
                spec_load(self@, pairs_view(items@)) == spec_load(start, all),
                n == total - items@.len(),
                total == all.len(),
            decreases items@.len(),
        {
            let ghost before = items@;
            let (k, v) = items.remove(0);
            proof {
                assert(pairs_view(before)[0] == (k@, v@));
                assert(pairs_view(items@) =~= pairs_view(before).skip(1));
                assert(spec_load(self@, pairs_view(before)) == spec_load(
                    spec_upsert(self@, k@, v@),
                    pairs_view(before).skip(1),
                ));
            }
            self.upsert(k, v);
            n += 1;
        }
        proof {
            assert(pairs_view(items@) =~= Seq::<(Seq<char>, <V as View>::V)>::empty());
        }
        n
    }
}

/// After writing at sorted position `i`, the keys are still strictly
/// ascending.
proof fn lemma_upsert_wf<T>(s: Seq<(Seq<char>, T)>, k: Seq<char>, v: T, i: int, replaced: bool)
    requires
        sorted_by_key(s),
        0 <= i <= s.len(),
        forall|j: int| 0 <= j < i ==> lex_lt(#[trigger] s[j].0, k),
        i < s.len() ==> !lex_lt(s[i].0, k),
        replaced ==> i < s.len() && s[i].0 == k,
        !replaced ==> !(i < s.len() && s[i].0 == k),
    ensures
        sorted_by_key(spec_upsert(s, k, v)),
{
    lemma_upsert_at(s, k, v, i);
    let r = spec_upsert(s, k, v);
    let tail_start = if replaced {
        i + 1
    } else {
        i
    };
    assert forall|p: int, q: int| 0 <= p < q < r.len() implies lex_lt(r[p].0, r[q].0) by {
        if p < i && q < i {
            assert(r[p] == s[p] && r[q] == s[q]);
        } else if p < i && q == i {
            assert(r[p] == s[p]);
        } else if p < i && q > i {
            assert(r[p] == s[p] && r[q] == s[q - 1 + tail_start - i]);
            let jq = q - 1 + tail_start - i;
            if jq == i {
                assert(!replaced);
                lemma_lex_lt_trichotomy(k, s[i].0);
                lemma_lex_lt_transitive(s[p].0, k, s[i].0);
            } else {
                assert(i <= jq < s.len());
                if p < jq {
                    assert(lex_lt(s[p].0, s[jq].0));
                } else {
                    assert(p == jq && p < i && jq >= i);
                }
            }
        } else if p == i && q > i {
            assert(r[p].0 == k && r[q] == s[q - 1 + tail_start - i]);
            let jq = q - 1 + tail_start - i;
            if replaced {
                assert(jq > i);
                assert(lex_lt(s[i].0, s[jq].0));
            } else {
                lemma_lex_lt_trichotomy(k, s[jq].0);
                if jq == i {
                } else {
                    assert(lex_lt(s[i].0, s[jq].0));
                    lemma_lex_lt_trichotomy(k, s[i].0);
                    if lex_lt(s[i].0, k) {
                    } else if s[i].0 == k {
                    } else {
                        lemma_lex_lt_transitive(k, s[i].0, s[jq].0);
                    }
                }
            }
        } else {
            assert(p > i && q > i);
            let jp = p - 1 + tail_start - i;
            let jq = q - 1 + tail_start - i;
            assert(r[p] == s[jp] && r[q] == s[jq]);
            if jp == i {
                assert(!replaced);
                assert(jq > i);
                assert(lex_lt(s[jp].0, s[jq].0));
            } else {
                assert(lex_lt(s[jp].0, s[jq].0));
            }
        }
    }
}

/// How many pairs of `s` carry the key `k`.
pub open spec fn count_key<T>(s: Seq<(Seq<char>, T)>, k: Seq<char>) -> nat
    decreases s.len(),
{
    if s.len() == 0 {
        0
    } else {
        (if s[0].0 == k {
            1nat
        } else {
            0nat
        }) + count_key(s.skip(1), k)
    }
}

proof fn lemma_count_zero<T>(s: Seq<(Seq<char>, T)>, k: Seq<char>)
    requires
        forall|j: int| 0 <= j < s.len() ==> (#[trigger] s[j]).0 != k,
    ensures
        count_key(s, k) == 0,
    decreases s.len(),
{
    if s.len() > 0 {
        assert forall|j: int| 0 <= j < s.skip(1).len() implies (#[trigger] s.skip(1)[j]).0 != k by {
            assert(s.skip(1)[j] == s[j + 1]);
        }
        lemma_count_zero(s.skip(1), k);
    }
}

proof fn lemma_sorted_skip<T>(s: Seq<(Seq<char>, T)>)
    requires
        sorted_by_key(s),
        s.len() > 0,
    ensures
        sorted_by_key(s.skip(1)),
{
    assert forall|i: int, j: int| 0 <= i < j < s.skip(1).len() implies lex_lt(
        s.skip(1)[i].0,
        s.skip(1)[j].0,
    ) by {
        assert(s.skip(1)[i] == s[i + 1]);
        assert(s.skip(1)[j] == s[j + 1]);
    }
}

/// Law: after an upsert, a lookup under the written key returns the value
/// just written, and a lookup under any other key is unchanged.
pub proof fn lemma_get_after_upsert<T>(s: Seq<(Seq<char>, T)>, k: Seq<char>, v: T, k2: Seq<char>)
    ensures
        spec_get(spec_upsert(s, k, v), k) == Some(v),
        k2 != k ==> spec_get(spec_upsert(s, k, v), k2) == spec_get(s, k2),
    decreases s.len(),
{
    let r = spec_upsert(s, k, v);
    if s.len() == 0 {
        assert(r.skip(1) =~= Seq::<(Seq<char>, T)>::empty());
        assert(spec_get(r, k) == Some(v));
        if k2 != k {
            assert(spec_get(r, k2) == spec_get(s, k2));
        }
    } else if lex_lt(k, s[0].0) {
        lemma_lex_lt_asymmetric(k, s[0].0);
        assert(r.skip(1) =~= s);
        assert(spec_get(r, k) == Some(v));
        if k2 != k {
            assert(spec_get(r, k2) == spec_get(s, k2));
        }
    } else if s[0].0 == k {
        assert(r.skip(1) =~= s.skip(1));
        assert(spec_get(r, k) == Some(v));
        if k2 != k {
            assert(spec_get(r, k2) == spec_get(s, k2));
        }
    } else {
        assert(r == seq![s[0]] + spec_upsert(s.skip(1), k, v));
        assert(r.skip(1) =~= spec_upsert(s.skip(1), k, v));
        lemma_get_after_upsert(s.skip(1), k, v, k2);
        assert(r[0] == s[0]);
        assert(spec_get(r, k) == Some(v));
        if k2 != k {
            assert(spec_get(r, k2) == spec_get(s, k2));
        }
    }
}

/// Law: under the order invariant an upsert leaves exactly one record
/// under the written key (insert if absent, replace if present).
pub proof fn lemma_upsert_single_record<T>(s: Seq<(Seq<char>, T)>, k: Seq<char>, v: T)
    requires
        sorted_by_key(s),
    ensures
        count_key(spec_upsert(s, k, v), k) == 1,
    decreases s.len(),
{
    let r = spec_upsert(s, k, v);
    if s.len() == 0 {
        assert(r == seq![(k, v)]);
        assert(r.len() == 1 && r[0].0 == k);
        assert(r.skip(1) =~= Seq::<(Seq<char>, T)>::empty());
        assert(count_key(r.skip(1), k) == 0);
        assert(count_key(r, k) == 1);
    } else if lex_lt(k, s[0].0) {
        assert(r.skip(1) =~= s);
        assert forall|j: int| 0 <= j < s.len() implies (#[trigger] s[j]).0 != k by {
            if j == 0 {
                lemma_lex_lt_asymmetric(k, s[0].0);
            } else {
                lemma_lex_lt_transitive(k, s[0].0, s[j].0);
                lemma_lex_lt_asymmetric(k, s[j].0);
            }
        }
        lemma_count_zero(s, k);
        assert(count_key(r, k) == 1);
    } else if s[0].0 == k {
        assert(r.skip(1) =~= s.skip(1));
        assert forall|j: int| 0 <= j < s.skip(1).len() implies (#[trigger] s.skip(1)[j]).0 != k by {
            assert(s.skip(1)[j] == s[j + 1]);
            assert(lex_lt(s[0].0, s[j + 1].0));
            lemma_lex_lt_asymmetric(k, s[j + 1].0);
        }
        lemma_count_zero(s.skip(1), k);
        assert(count_key(r, k) == 1);
    } else {
        assert(r == seq![s[0]] + spec_upsert(s.skip(1), k, v));
        assert(r.skip(1) =~= spec_upsert(s.skip(1), k, v));
        lemma_sorted_skip(s);
        lemma_upsert_single_record(s.skip(1), k, v);
        assert(r[0] == s[0]);
        assert(count_key(r, k) == 1);
    }
}

/// Law: upserting the same key twice is the same as upserting it once
/// with the second value; the identity is idempotent and the second
/// write wins.
pub proof fn lemma_upsert_last_write_wins<T>(s: Seq<(Seq<char>, T)>, k: Seq<char>, v1: T, v2: T)
    ensures
        spec_upsert(spec_upsert(s, k, v1), k, v2) == spec_upsert(s, k, v2),
    decreases s.len(),
{
    lemma_lex_lt_irreflexive(k);
    if s.len() == 0 {
        let inner = spec_upsert(s, k, v1);
        assert(inner == seq![(k, v1)]);
        assert(spec_upsert(inner, k, v2) =~= seq![(k, v2)]);
        assert(spec_upsert(s, k, v2) =~= seq![(k, v2)]);
    } else if lex_lt(k, s[0].0) {
        let inner = seq![(k, v1)] + s;
        assert(spec_upsert(s, k, v1) == inner);
        assert(inner[0].0 == k);
        assert(spec_upsert(inner, k, v2) == seq![(k, v2)] + inner.skip(1));
        assert(inner.skip(1) =~= s);
        assert(spec_upsert(inner, k, v2) =~= spec_upsert(s, k, v2));
    } else if s[0].0 == k {
        let inner = seq![(k, v1)] + s.skip(1);
        assert(spec_upsert(s, k, v1) == inner);
        assert(inner[0].0 == k);
        assert(spec_upsert(inner, k, v2) == seq![(k, v2)] + inner.skip(1));
        assert(inner.skip(1) =~= s.skip(1));
        assert(spec_upsert(inner, k, v2) =~= spec_upsert(s, k, v2));
    } else {
        let inner = seq![s[0]] + spec_upsert(s.skip(1), k, v1);
        assert(spec_upsert(s, k, v1) == inner);
        assert(inner[0] == s[0]);
        assert(!lex_lt(k, inner[0].0) && inner[0].0 != k);
        assert(spec_upsert(inner, k, v2) == seq![inner[0]] + spec_upsert(inner.skip(1), k, v2));
        assert(inner.skip(1) =~= spec_upsert(s.skip(1), k, v1));
        lemma_upsert_last_write_wins(s.skip(1), k, v1, v2);
        assert(spec_upsert(inner, k, v2) =~= spec_upsert(s, k, v2));
    }
}

proof fn lemma_matching_keys<T>(s: Seq<(Seq<char>, T)>, p: Seq<char>)
    ensures
        forall|i: int|
            0 <= i < matching(s, p).len() ==> is_prefix(p, (#[trigger] matching(s, p)[i]).0),
        forall|i: int|
            0 <= i < matching(s, p).len() ==> exists|j: int|
                0 <= j < s.len() && #[trigger] matching(s, p)[i] == s[j],
    decreases s.len(),
{
    if s.len() > 0 {
        lemma_matching_keys(s.skip(1), p);
        let m = matching(s, p);
        let mt = matching(s.skip(1), p);
        assert forall|i: int|
            0 <= i < m.len() implies is_prefix(p, (#[trigger] m[i]).0) && exists|j: int|
            0 <= j < s.len() && m[i] == s[j] by {
            if is_prefix(p, s[0].0) {
                assert(m == seq![s[0]] + mt);
                if i == 0 {
                    assert(m[0] == s[0]);
                } else {
                    assert(m[i] == mt[i - 1]);
                    let j = choose|j: int| 0 <= j < s.skip(1).len() && mt[i - 1] == s.skip(1)[j];
                    assert(s.skip(1)[j] == s[j + 1]);
                    assert(m[i] == s[j + 1]);
                }
            } else {
                assert(m == mt);
                let j = choose|j: int| 0 <= j < s.skip(1).len() && mt[i] == s.skip(1)[j];
                assert(s.skip(1)[j] == s[j + 1]);
                assert(m[i] == s[j + 1]);
            }
        }
    }
}

proof fn lemma_matching_sorted<T>(s: Seq<(Seq<char>, T)>, p: Seq<char>)
    requires
        sorted_by_key(s),
    ensures
        sorted_by_key(matching(s, p)),
    decreases s.len(),
{
    if s.len() > 0 {
        lemma_sorted_skip(s);
        lemma_matching_sorted(s.skip(1), p);
        lemma_matching_keys(s.skip(1), p);
        let m = matching(s, p);
        let mt = matching(s.skip(1), p);
        if is_prefix(p, s[0].0) {
            assert(m == seq![s[0]] + mt);
            assert forall|i: int, j: int| 0 <= i < j < m.len() implies lex_lt(
                m[i].0,
                m[j].0,
            ) by {
                if i == 0 {
                    assert(m[j] == mt[j - 1]);
                    let jj = choose|jj: int|
                        0 <= jj < s.skip(1).len() && mt[j - 1] == s.skip(1)[jj];
                    assert(s.skip(1)[jj] == s[jj + 1]);
                    assert(lex_lt(s[0].0, s[jj + 1].0));
                } else {
                    assert(m[i] == mt[i - 1] && m[j] == mt[j - 1]);
                }
            }
        }
    }
}

proof fn lemma_scan_take_matching<T>(s: Seq<(Seq<char>, T)>, p: Seq<char>, limit: nat)
    ensures
        limit <= matching(s, p).len() ==> spec_scan(s, p, limit) == matching(s, p).take(
            limit as int,
        ),
        limit > matching(s, p).len() ==> spec_scan(s, p, limit) == matching(s, p),
    decreases s.len(),
{
    let m = matching(s, p);
    if s.len() == 0 || limit == 0 {
        if limit == 0 {
            assert(spec_scan(s, p, limit) =~= m.take(0));
        }
    } else if is_prefix(p, s[0].0) {
        lemma_scan_take_matching(s.skip(1), p, (limit - 1) as nat);
        let mt = matching(s.skip(1), p);
        assert(m == seq![s[0]] + mt);
        if limit <= m.len() {
            assert(spec_scan(s, p, limit) =~= m.take(limit as int));
        } else {
            assert(spec_scan(s, p, limit) =~= m);
        }
    } else {
        lemma_scan_take_matching(s.skip(1), p, limit);
    }
}

/// Law: a bounded prefix scan returns at most `limit` records; every
/// returned key starts with the prefix; the keys ascend; and the result
/// is exactly the longest initial segment, of length at most `limit`, of
/// the unbounded scan with the same prefix.
pub proof fn lemma_scan_prefix_properties<T>(s: Seq<(Seq<char>, T)>, p: Seq<char>, limit: nat)
    requires
        sorted_by_key(s),
    ensures
        spec_scan(s, p, limit).len() <= limit,
        forall|i: int|
            0 <= i < spec_scan(s, p, limit).len() ==> is_prefix(
                p,
                (#[trigger] spec_scan(s, p, limit)[i]).0,
            ),
        sorted_by_key(spec_scan(s, p, limit)),
        limit <= matching(s, p).len() ==> spec_scan(s, p, limit) == matching(s, p).take(
            limit as int,
        ),
        limit > matching(s, p).len() ==> spec_scan(s, p, limit) == matching(s, p),
{
    lemma_scan_take_matching(s, p, limit);
    lemma_matching_keys(s, p);
    lemma_matching_sorted(s, p);
    let m = matching(s, p);
    let r = spec_scan(s, p, limit);
    if limit <= m.len() {
        assert forall|i: int| 0 <= i < r.len() implies is_prefix(p, (#[trigger] r[i]).0) by {
            assert(r[i] == m[i]);
        }
        assert forall|i: int, j: int| 0 <= i < j < r.len() implies lex_lt(r[i].0, r[j].0) by {
            assert(r[i] == m[i] && r[j] == m[j]);
        }
    }
}

/// An upsert preserves any property that holds of every stored pair and
/// of the written pair.
pub proof fn lemma_upsert_preserves<T>(
    s: Seq<(Seq<char>, T)>,
    k: Seq<char>,
    v: T,
    p: spec_fn((Seq<char>, T)) -> bool,
)
    requires
        forall|i: int| 0 <= i < s.len() ==> p(#[trigger] s[i]),
        p((k, v)),
    ensures
        forall|i: int|
            0 <= i < spec_upsert(s, k, v).len() ==> p(#[trigger] spec_upsert(s, k, v)[i]),
    decreases s.len(),
{
    let r = spec_upsert(s, k, v);
    if s.len() == 0 {
        assert forall|i: int| 0 <= i < r.len() implies p(r[i]) by {
            assert(r[i] == (k, v));
        }
    } else if lex_lt(k, s[0].0) {
        assert forall|i: int| 0 <= i < r.len() implies p(r[i]) by {
            if i == 0 {
                assert(r[i] == (k, v));
            } else {
                assert(r[i] == s[i - 1]);
            }
        }
    } else if s[0].0 == k {
        assert forall|i: int| 0 <= i < r.len() implies p(r[i]) by {
            if i == 0 {
                assert(r[i] == (k, v));
            } else {
                assert(r[i] == s.skip(1)[i - 1]);
                assert(s.skip(1)[i - 1] == s[i]);
            }
        }
    } else {
        let t = s.skip(1);
        assert forall|i: int| 0 <= i < t.len() implies p(#[trigger] t[i]) by {
            assert(t[i] == s[i + 1]);
        }
        lemma_upsert_preserves(t, k, v, p);
        assert forall|i: int| 0 <= i < r.len() implies p(r[i]) by {
            if i == 0 {
                assert(r[i] == s[0]);
            } else {
                assert(r[i] == spec_upsert(t, k, v)[i - 1]);
            }
        }
    }
}

/// A bulk load preserves any property that holds of every stored pair and
/// of every input pair.
pub proof fn lemma_load_preserves<T>(
    s: Seq<(Seq<char>, T)>,
    items: Seq<(Seq<char>, T)>,
    p: spec_fn((Seq<char>, T)) -> bool,
)
    requires
        forall|i: int| 0 <= i < s.len() ==> p(#[trigger] s[i]),
        forall|i: int| 0 <= i < items.len() ==> p(#[trigger] items[i]),
    ensures
        forall|i: int|
            0 <= i < spec_load(s, items).len() ==> p(#[trigger] spec_load(s, items)[i]),
    decreases items.len(),
{
    if items.len() > 0 {
        assert(items[0] == (items[0].0, items[0].1));
        lemma_upsert_preserves(s, items[0].0, items[0].1, p);
        let t = items.skip(1);
        assert forall|i: int| 0 <= i < t.len() implies p(#[trigger] t[i]) by {
            assert(t[i] == items[i + 1]);
        }
        lemma_load_preserves(spec_upsert(s, items[0].0, items[0].1), t, p);
        assert(spec_load(s, items) == spec_load(spec_upsert(s, items[0].0, items[0].1), t));
        assert forall|i: int| 0 <= i < spec_load(s, items).len() implies p(
            #[trigger] spec_load(s, items)[i],
        ) by {
            assert(spec_load(s, items)[i] == spec_load(
                spec_upsert(s, items[0].0, items[0].1),
                t,
            )[i]);
        }
    }
}

/// Law: every record a bounded prefix scan returns is a record of the
/// store.
pub proof fn lemma_scan_pairs_membership<T>(s: Seq<(Seq<char>, T)>, p: Seq<char>, limit: nat)
    ensures
        forall|i: int|
            0 <= i < spec_scan(s, p, limit).len() ==> exists|j: int|
                0 <= j < s.len() && #[trigger] spec_scan(s, p, limit)[i] == s[j],
{
    lemma_scan_take_matching(s, p, limit);
    lemma_matching_keys(s, p);
    let m = matching(s, p);
    let r = spec_scan(s, p, limit);
    assert forall|i: int| 0 <= i < r.len() implies exists|j: int|
        0 <= j < s.len() && #[trigger] r[i] == s[j] by {
        if limit <= m.len() {
            assert(r[i] == m.take(limit as int)[i]);
            assert(m.take(limit as int)[i] == m[i]);
        } else {
            assert(r[i] == m[i]);
        }
        let j = choose|j: int| 0 <= j < s.len() && m[i] == s[j];
        assert(r[i] == s[j]);
    }
}

/// Law: the empty prefix matches every record, so a scan with the empty
/// prefix returns the first `limit` records of the whole collection.
pub proof fn lemma_scan_empty_prefix<T>(s: Seq<(Seq<char>, T)>, limit: nat)
    ensures
        matching(s, Seq::<char>::empty()) == s,
        limit <= s.len() ==> spec_scan(s, Seq::<char>::empty(), limit) == s.take(limit as int),
        limit > s.len() ==> spec_scan(s, Seq::<char>::empty(), limit) == s,
    decreases s.len(),
{
    if s.len() > 0 {
        lemma_scan_empty_prefix(s.skip(1), limit);
        assert(matching(s.skip(1), Seq::<char>::empty()) == s.skip(1));
        assert(matching(s, Seq::<char>::empty()) =~= s);
    } else {
        assert(matching(s, Seq::<char>::empty()) =~= s);
    }
    lemma_scan_take_matching(s, Seq::<char>::empty(), limit);
}

} // verus!
