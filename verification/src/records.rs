//! The two record kinds held by the stores.
//!
//! Each collection is homogeneous: one store holds entities keyed by
//! `name`, the other holds events keyed by `id`.  A record's key field is
//! its sole identity; re-adding a key replaces the whole prior record.

use vstd::prelude::*;

use crate::store::StoreValue;

verus! {

/// An entity record.  `name` is the unique key; `born` is optional and
/// `tags` may be empty.
pub struct Entity {
    pub name: String,
    pub summary: String,
    pub born: Option<String>,
    pub tags: Vec<String>,
}

/// The abstract content of an [`Entity`].
pub struct EntityView {
    pub name: Seq<char>,
    pub summary: Seq<char>,
    pub born: Option<Seq<char>>,
    pub tags: Seq<Seq<char>>,
}

impl View for Entity {
    type V = EntityView;

    open spec fn view(&self) -> EntityView {
        EntityView {
            name: self.name@,
            summary: self.summary@,
            born: match self.born {
                Some(b) => Some(b@),
                None => None,
            },
            tags: self.tags@.map_values(|t: String| t@),
        }
    }
}

/// An event record.  `id` is the unique key; `category` is required here,
/// and a missing category at the protocol boundary is rejected before a
/// record is ever built.
pub struct Event {
    pub id: String,
    pub timestamp: String,
    pub description: String,
    pub category: String,
}

/// The abstract content of an [`Event`].
pub struct EventView {
    pub id: Seq<char>,
    pub timestamp: Seq<char>,
    pub description: Seq<char>,
    pub category: Seq<char>,
}

impl View for Event {
    type V = EventView;

    open spec fn view(&self) -> EventView {
        EventView {
            id: self.id@,
            timestamp: self.timestamp@,
            description: self.description@,
            category: self.category@,
        }
    }
}

/// Copies each string of `v`, preserving the sequence exactly.
pub fn clone_strings(v: &Vec<String>) -> (r: Vec<String>)
    ensures
        r@ == v@,
{
    let mut out: Vec<String> = Vec::new();
    let mut i: usize = 0;
    proof {
        assert(out@ =~= v@.take(0));
    }
    while i < v.len()
        invariant
            0 <= i <= v@.len(),
            out@ == v@.take(i as int),
        decreases v@.len() - i,
    {
        out.push(v[i].clone());
        proof {
            assert(out@ =~= v@.take(i as int + 1));
        }
        i += 1;
    }
    proof {
        assert(v@.take(v@.len() as int) =~= v@);
    }
    out
}

impl Clone for Entity {
    /// A full copy: the caller may mutate it without affecting the store.
    fn clone(&self) -> (r: Self)
        ensures
            r@ == self@,
    {
        Entity {
            name: self.name.clone(),
            summary: self.summary.clone(),
            born: match &self.born {
                Some(b) => Some(b.clone()),
                None => None,
            },
            tags: clone_strings(&self.tags),
        }
    }
}

impl StoreValue for Entity {
    fn clone_value(&self) -> (r: Self) {
        self.clone()
    }
}

impl Clone for Event {
    /// A full copy: the caller may mutate it without affecting the store.
    fn clone(&self) -> (r: Self)
        ensures
            r@ == self@,
    {
        Event {
            id: self.id.clone(),
            timestamp: self.timestamp.clone(),
            description: self.description.clone(),
            category: self.category.clone(),
        }
    }
}

impl StoreValue for Event {
    fn clone_value(&self) -> (r: Self) {
        self.clone()
    }
}

} // verus!
