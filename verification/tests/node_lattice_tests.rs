use tee::node::NodeLattice;
use tee::node_type::NodeType;
use tee::prov_set::ProvSet;
use tee::provenance::Provenance;

fn prov(source: &str, trigger: &str) -> Provenance {
    Provenance::new(source.to_string(), trigger.to_string())
}

fn prov_set(entries: &[(&str, &str)]) -> ProvSet {
    let mut set = ProvSet::new();
    for (s, t) in entries {
        set.insert(prov(s, t));
    }
    set
}

fn make(node_type: NodeType, label: &str, hypothetical: bool, entries: &[(&str, &str)]) -> NodeLattice {
    NodeLattice::new(node_type, label.to_string(), hypothetical, prov_set(entries))
}

// --- Idempotence ---

#[test]
fn merge_idempotent_no_change() {
    let mut a = make(NodeType::Service, "api-gateway", true, &[("agent-1", "alert-fired")]);
    let b = make(NodeType::Service, "api-gateway", true, &[("agent-1", "alert-fired")]);
    assert!(!a.merge(b), "merging identical data should return false");
    assert!(!a.has_conflict());
}

// --- Commutativity ---

#[test]
fn merge_commutative_provenance() {
    let mut ab = make(NodeType::Service, "svc", true, &[("agent-1", "alert")]);
    let b = make(NodeType::Service, "svc", true, &[("agent-2", "log-scan")]);
    ab.merge(b);

    let mut ba = make(NodeType::Service, "svc", true, &[("agent-2", "log-scan")]);
    let a = make(NodeType::Service, "svc", true, &[("agent-1", "alert")]);
    ba.merge(a);

    assert_eq!(ab.provenance.len(), ba.provenance.len());
    for i in 0..ab.provenance.len() {
        assert_eq!(
            ab.provenance.get(i),
            ba.provenance.get(i),
            "provenance sets should be identical regardless of merge order"
        );
    }
}

// --- Conflict detection ---

#[test]
fn type_conflict_detected() {
    let mut a = make(NodeType::Service, "svc", true, &[("a", "t")]);
    let b = make(NodeType::Infrastructure, "svc", true, &[("a", "t")]);
    a.merge(b);
    assert!(a.has_conflict());
    assert!(a.node_type.is_conflict());
    assert_eq!(a.conflict_field(), Some("type"));
}

#[test]
fn label_conflict_detected() {
    let mut a = make(NodeType::Service, "api-gw", true, &[("a", "t")]);
    let b = make(NodeType::Service, "api-gateway", true, &[("a", "t")]);
    a.merge(b);
    assert!(a.has_conflict());
    assert!(a.label.is_conflict());
    assert_eq!(a.conflict_field(), Some("label"));
}

#[test]
fn no_conflict_same_values() {
    let mut a = make(NodeType::Service, "svc", true, &[("a", "t1")]);
    let b = make(NodeType::Service, "svc", true, &[("b", "t2")]);
    a.merge(b);
    assert!(!a.has_conflict());
    assert_eq!(a.provenance.len(), 2);
}

// --- Hypothetical monotonicity ---

#[test]
fn hypothetical_once_false_stays_false() {
    let mut a = make(NodeType::Service, "svc", false, &[("a", "t")]); // confirmed
    let b = make(NodeType::Service, "svc", true, &[("a", "t")]); // try to revert
    assert!(!a.merge(b), "merging true into false should be a no-op");
    assert!(!a.hypothetical.get());
}

#[test]
fn hypothetical_confirmed_by_merge() {
    let mut a = make(NodeType::Service, "svc", true, &[("a", "t")]);
    let b = make(NodeType::Service, "svc", false, &[("a", "t")]);
    assert!(a.merge(b), "merging false into true should change to false");
    assert!(!a.hypothetical.get());
}

// --- Provenance accumulation ---

#[test]
fn provenance_accumulates() {
    let mut a = make(NodeType::Service, "svc", true, &[("agent-1", "t1")]);
    let b = make(NodeType::Service, "svc", true, &[("agent-2", "t2")]);
    a.merge(b);
    assert_eq!(a.provenance.len(), 2);
}

#[test]
fn provenance_dedup_same_identity() {
    let mut a = make(NodeType::Service, "svc", true, &[("agent-1", "alert")]);
    let b = make(NodeType::Service, "svc", true, &[("agent-1", "alert")]);
    assert!(!a.merge(b));
    assert_eq!(a.provenance.len(), 1);
}

// --- Bottom ---

#[test]
fn node_is_never_bot() {
    let n = make(NodeType::Service, "svc", true, &[("a", "t")]);
    assert!(!n.is_bot());
}

// --- Associativity ---

#[test]
fn merge_associative() {
    let a = || make(NodeType::Service, "svc", true, &[("agent-1", "t1")]);
    let b = || make(NodeType::Service, "svc", false, &[("agent-2", "t2")]);
    let c = || make(NodeType::Service, "svc", true, &[("agent-3", "t3")]);

    // (a ⊔ b) ⊔ c
    let mut left = a();
    left.merge(b());
    left.merge(c());

    // a ⊔ (b ⊔ c)
    let mut bc = b();
    bc.merge(c());
    let mut right = a();
    right.merge(bc);

    assert_eq!(left.has_conflict(), right.has_conflict());
    assert_eq!(left.hypothetical.get(), right.hypothetical.get());
    assert_eq!(left.provenance.len(), right.provenance.len());
    for i in 0..left.provenance.len() {
        assert_eq!(left.provenance.get(i), right.provenance.get(i));
        assert_eq!(
            left.provenance.get(i).timestamp_seconds,
            right.provenance.get(i).timestamp_seconds
        );
    }
}

// --- Conflict commutes ---

#[test]
fn conflict_detected_in_either_merge_order() {
    let mut ab = make(NodeType::Service, "svc", true, &[("a", "t")]);
    ab.merge(make(NodeType::Infrastructure, "svc", true, &[("a", "t")]));

    let mut ba = make(NodeType::Infrastructure, "svc", true, &[("a", "t")]);
    ba.merge(make(NodeType::Service, "svc", true, &[("a", "t")]));

    assert!(ab.has_conflict());
    assert!(ba.has_conflict());
    assert_eq!(ab.conflict_field(), ba.conflict_field());
}
