use tee::cells::MonotoneBool;
use tee::edge::{EdgeKey, EdgeLattice};
use tee::edge_type::EdgeType;
use tee::prov_set::ProvSet;
use tee::provenance::Provenance;

fn prov(source: &str, trigger: &str) -> Provenance {
    Provenance::new(source.to_string(), trigger.to_string())
}

fn prov_set(entries: &[(&str, &str)]) -> ProvSet {
    let mut set = ProvSet::new();
    for (s, t) in entries {
        set.insert(prov(s, t));
    }
    set
}

#[test]
fn merge_accumulates_provenance() {
    let mut a = EdgeLattice::new(prov_set(&[("a", "t1")]));
    let b = EdgeLattice::new(prov_set(&[("b", "t2")]));
    assert!(a.merge(b));
    assert_eq!(a.provenance.len(), 2);
}

#[test]
fn merge_idempotent() {
    let mut a = EdgeLattice::new(prov_set(&[("a", "t1")]));
    let b = EdgeLattice::new(prov_set(&[("a", "t1")]));
    assert!(!a.merge(b));
    assert_eq!(a.provenance.len(), 1);
}

#[test]
fn merge_commutative() {
    let mut ab = EdgeLattice::new(prov_set(&[("a", "t1")]));
    ab.merge(EdgeLattice::new(prov_set(&[("b", "t2")])));

    let mut ba = EdgeLattice::new(prov_set(&[("b", "t2")]));
    ba.merge(EdgeLattice::new(prov_set(&[("a", "t1")])));

    assert_eq!(ab.provenance.len(), ba.provenance.len());
    for i in 0..ab.provenance.len() {
        assert_eq!(ab.provenance.get(i), ba.provenance.get(i));
    }
}

#[test]
fn edge_key_ordering() {
    let k1 = EdgeKey::new("a".to_string(), "b".to_string(), EdgeType::DependsOn);
    let k2 = EdgeKey::new("a".to_string(), "b".to_string(), EdgeType::PropagatesTo);
    let k3 = EdgeKey::new("a".to_string(), "c".to_string(), EdgeType::DependsOn);
    assert!(k1 < k2);
    assert!(k1 < k3);
}

#[test]
fn empty_edge_is_bot() {
    let e = EdgeLattice::new(ProvSet::new());
    assert!(e.is_bot());
}

#[test]
fn non_empty_edge_is_not_bot() {
    let e = EdgeLattice::new(prov_set(&[("a", "t")]));
    assert!(!e.is_bot());
}

// --- Monotone boolean cell ---

#[test]
fn hypothetical_default_is_true() {
    let h = MonotoneBool::default();
    assert!(h.get(), "a fresh monotone cell should be true");
}

#[test]
fn monotone_bool_true_false_changes() {
    let mut cell = MonotoneBool::new(true);
    assert!(cell.merge(MonotoneBool::new(false)), "merging false into true should report a change");
    assert!(!cell.get());
}

#[test]
fn monotone_bool_false_true_no_change() {
    let mut cell = MonotoneBool::new(false);
    assert!(!cell.merge(MonotoneBool::new(true)), "merging true into false should be a no-op");
    assert!(!cell.get());
}

#[test]
fn monotone_bool_false_absorbs_everything() {
    for incoming in [true, false] {
        let mut cell = MonotoneBool::new(false);
        cell.merge(MonotoneBool::new(incoming));
        assert!(!cell.get(), "once false, a monotone cell stays false");
    }
}
