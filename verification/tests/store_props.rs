//! Store-level behavior: upsert/get round trips, prefix scans, bulk
//! loads and the operation counters.

use blazing_art_mcp::memory::Memory;
use blazing_art_mcp::records::{Entity, Event};
use blazing_art_mcp::store::IndexedStore;

fn entity(name: &str, summary: &str) -> Entity {
    Entity {
        name: name.to_string(),
        summary: summary.to_string(),
        born: None,
        tags: Vec::new(),
    }
}

fn event(id: &str, description: &str) -> Event {
    Event {
        id: id.to_string(),
        timestamp: "2024-01-01T00:00:00+00:00".to_string(),
        description: description.to_string(),
        category: "general".to_string(),
    }
}

#[test]
fn get_returns_most_recent_upsert() {
    let mut store: IndexedStore<Entity> = IndexedStore::new();
    store.upsert("ada".to_string(), entity("ada", "first"));
    store.upsert("bob".to_string(), entity("bob", "builder"));
    store.upsert("ada".to_string(), entity("ada", "second"));
    let got = store.get("ada").expect("ada present");
    assert_eq!(got.summary, "second");
    let other = store.get("bob").expect("bob present");
    assert_eq!(other.summary, "builder");
}

#[test]
fn get_miss_returns_none() {
    let mut store: IndexedStore<Entity> = IndexedStore::new();
    store.upsert("ada".to_string(), entity("ada", "mathematician"));
    assert!(store.get("grace").is_none());
    assert!(store.get("").is_none());
}

#[test]
fn reupsert_keeps_exactly_one_record() {
    let mut store: IndexedStore<Event> = IndexedStore::new();
    store.upsert("k".to_string(), event("k", "one"));
    store.upsert("k".to_string(), event("k", "two"));
    assert_eq!(store.len(), 1);
    assert_eq!(store.get("k").expect("k present").description, "two");
}

#[test]
fn scan_prefix_bounds_and_order() {
    let mut store: IndexedStore<Event> = IndexedStore::new();
    store.upsert("b:2".to_string(), event("b:2", "fourth"));
    store.upsert("a:1".to_string(), event("a:1", "first"));
    store.upsert("a:3".to_string(), event("a:3", "third"));
    store.upsert("a:2".to_string(), event("a:2", "second"));
    let all_a = store.scan_prefix("a:", 10);
    assert_eq!(all_a.len(), 3);
    assert_eq!(all_a[0].id, "a:1");
    assert_eq!(all_a[1].id, "a:2");
    assert_eq!(all_a[2].id, "a:3");
    let bounded = store.scan_prefix("a:", 2);
    assert_eq!(bounded.len(), 2);
    assert_eq!(bounded[0].id, "a:1");
    assert_eq!(bounded[1].id, "a:2");
    let none = store.scan_prefix("c", 10);
    assert!(none.is_empty());
}

#[test]
fn scan_empty_prefix_covers_whole_collection() {
    let mut store: IndexedStore<Event> = IndexedStore::new();
    store.upsert("beta".to_string(), event("beta", "b"));
    store.upsert("alpha".to_string(), event("alpha", "a"));
    store.upsert("gamma".to_string(), event("gamma", "g"));
    let two = store.scan_prefix("", 2);
    assert_eq!(two.len(), 2);
    assert_eq!(two[0].id, "alpha");
    assert_eq!(two[1].id, "beta");
    let all = store.scan_prefix("", 100);
    assert_eq!(all.len(), 3);
    assert_eq!(all[2].id, "gamma");
}

#[test]
fn bulk_load_last_duplicate_wins() {
    let mut store: IndexedStore<Entity> = IndexedStore::new();
    let records = vec![
        ("ada".to_string(), entity("ada", "first")),
        ("bob".to_string(), entity("bob", "builder")),
        ("ada".to_string(), entity("ada", "second")),
    ];
    let n = store.bulk_load(records);
    assert_eq!(n, 3);
    assert_eq!(store.len(), 2);
    assert_eq!(store.get("ada").expect("ada present").summary, "second");
}

#[test]
fn memory_lookup_counts_and_misses() {
    let mut mem = Memory::new(64, 5);
    mem.add_entity(entity("ada", "mathematician"));
    let found = mem.lookup_entity("ada", 10);
    assert!(found.is_some());
    let missing = mem.lookup_entity("grace", 11);
    assert!(missing.is_none());
    let stats = mem.stats();
    assert_eq!(stats.entity_count, 1);
    assert_eq!(stats.event_count, 0);
    assert_eq!(stats.lookup_count, 2);
    assert_eq!(stats.error_count, 1);
    assert_eq!(stats.last_access, 11);
}

#[test]
fn memory_find_events_respects_limit() {
    let mut mem = Memory::new(1, 0);
    mem.add_event(event("2024-01-02:launch", "later"));
    mem.add_event(event("2024-01-01:launch", "earlier"));
    let hits = mem.find_events("2024", 3);
    assert_eq!(hits.len(), 1);
    assert_eq!(hits[0].id, "2024-01-01:launch");
    let stats = mem.stats();
    assert_eq!(stats.lookup_count, 1);
    assert_eq!(stats.error_count, 0);
    assert_eq!(stats.last_access, 3);
}

#[test]
fn memory_load_entities_and_events() {
    let mut mem = Memory::new(64, 0);
    let n = mem.load_entities(vec![
        entity("ada", "mathematician"),
        entity("alan", "computer scientist"),
        entity("ada", "countess"),
    ]);
    assert_eq!(n, 3);
    let m = mem.load_events(vec![event("e1", "one"), event("e2", "two")]);
    assert_eq!(m, 2);
    let stats = mem.stats();
    assert_eq!(stats.entity_count, 2);
    assert_eq!(stats.event_count, 2);
    assert_eq!(mem.lookup_entity("ada", 1).expect("ada present").summary, "countess");
}

#[test]
fn returned_copies_do_not_alias_the_store() {
    let mut mem = Memory::new(64, 0);
    mem.add_entity(entity("ada", "mathematician"));
    let mut copy = mem.lookup_entity("ada", 1).expect("ada present");
    copy.summary = "changed".to_string();
    copy.tags.push("extra".to_string());
    let fresh = mem.lookup_entity("ada", 2).expect("ada present");
    assert_eq!(fresh.summary, "mathematician");
    assert!(fresh.tags.is_empty());
}

#[test]
fn keys_order_byte_for_byte() {
    let mut store: IndexedStore<Event> = IndexedStore::new();
    store.upsert("a~".to_string(), event("a~", "tilde"));
    store.upsert("aA".to_string(), event("aA", "upper"));
    store.upsert("a0".to_string(), event("a0", "digit"));
    store.upsert("aa".to_string(), event("aa", "lower"));
    let all = store.scan_prefix("a", 10);
    assert_eq!(all.len(), 4);
    assert_eq!(all[0].id, "a0");
    assert_eq!(all[1].id, "aA");
    assert_eq!(all[2].id, "aa");
    assert_eq!(all[3].id, "a~");
}
