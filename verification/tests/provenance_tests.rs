use tee::prov_set::ProvSet;
use tee::provenance::Provenance;

fn prov(source: &str, trigger: &str) -> Provenance {
    Provenance::new(source.to_string(), trigger.to_string())
}

#[test]
fn equality_ignores_timestamp() {
    let a = prov("agent-1", "alert").with_timestamp(100, 0);
    let b = prov("agent-1", "alert").with_timestamp(200, 0);
    assert_eq!(a, b);
}

#[test]
fn different_source_not_equal() {
    let a = prov("agent-1", "alert");
    let b = prov("agent-2", "alert");
    assert_ne!(a, b);
}

#[test]
fn different_trigger_not_equal() {
    let a = prov("agent-1", "alert");
    let b = prov("agent-1", "log-scan");
    assert_ne!(a, b);
}

#[test]
fn btreeset_dedup_by_identity() {
    let a = prov("agent-1", "alert").with_timestamp(100, 0);
    let b = prov("agent-1", "alert").with_timestamp(200, 0);

    let mut set = ProvSet::new();
    set.insert(a);
    set.insert(b);

    assert_eq!(set.len(), 1);
    // First-write-wins: timestamp should be from first insert (100)
    let entry = set.get(0);
    assert_eq!(entry.timestamp_seconds, 100);
}

#[test]
fn btreeset_keeps_distinct_entries() {
    let a = prov("agent-1", "alert");
    let b = prov("agent-2", "log-scan");

    let mut set = ProvSet::new();
    set.insert(a);
    set.insert(b);

    assert_eq!(set.len(), 2);
}

#[test]
fn ordering_is_deterministic() {
    let a = prov("a", "x");
    let b = prov("a", "y");
    let c = prov("b", "x");

    assert!(a < b); // same source, trigger "x" < "y"
    assert!(b < c); // source "a" < "b"
}

#[test]
fn set_iterates_in_identity_order() {
    let mut set = ProvSet::new();
    set.insert(prov("b", "x"));
    set.insert(prov("a", "y"));
    set.insert(prov("a", "x"));
    assert_eq!(set.len(), 3);
    assert_eq!(set.get(0).source, "a");
    assert_eq!(set.get(0).trigger, "x");
    assert_eq!(set.get(1).source, "a");
    assert_eq!(set.get(1).trigger, "y");
    assert_eq!(set.get(2).source, "b");
}

#[test]
fn set_merge_reports_new_identities_only() {
    let mut a = ProvSet::new();
    a.insert(prov("agent-1", "alert"));
    let mut b = ProvSet::new();
    b.insert(prov("agent-1", "alert").with_timestamp(999, 0));
    // same identity: nothing new, and the first timestamp is kept
    assert!(!a.merge(b));
    assert_eq!(a.len(), 1);
    assert_eq!(a.get(0).timestamp_seconds, 0);

    let mut c = ProvSet::new();
    c.insert(prov("agent-2", "scan"));
    assert!(a.merge(c));
    assert_eq!(a.len(), 2);
}
