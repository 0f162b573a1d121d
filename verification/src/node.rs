//! The node lattice: the mutable bundle a node id maps to.
//!
//! The node's id is the key in the enclosing map, never stored here.
//! Merge works field by field: first-write-wins on the type and the label,
//! logical AND on the hypothetical flag, set union on provenance.  The
//! merge of the whole bundle is associative and idempotent, and
//! commutative up to the retained timestamps, which provenance identity
//! excludes.

use crate::cells::{
    bool_merge, fww_changed, fww_merge, lemma_fww_merge_associative, lemma_fww_merge_commutative,
    lemma_fww_merge_idempotent, CellVal, LabelCell, MonotoneBool, TypeCell,
};
use crate::node_type::NodeType;
use crate::prov_set::{
    lemma_prov_union_assoc, lemma_prov_union_commutative_ids, lemma_prov_union_idempotent,
    prov_ids, prov_seq_contains_id, prov_seq_wf, prov_union, ProvSet,
};
use crate::provenance::ProvView;
use vstd::prelude::*;

verus! {

/// Mathematical value of a [`NodeLattice`].
pub ghost struct NodeView {
    pub node_type: CellVal<NodeType>,
    pub label: CellVal<Seq<char>>,
    pub hypothetical: bool,
    pub provenance: Seq<ProvView>,
}

/// Well-formedness of the model: the provenance set is sorted and unique.
pub open spec fn node_wf(n: NodeView) -> bool {
    prov_seq_wf(n.provenance)
}

/// Merge of node models, field by field.
pub open spec fn node_merge(a: NodeView, b: NodeView) -> NodeView {
    NodeView {
        node_type: fww_merge(a.node_type, b.node_type),
        label: fww_merge(a.label, b.label),
        hypothetical: bool_merge(a.hypothetical, b.hypothetical),
        provenance: prov_union(a.provenance, b.provenance),
    }
}

/// The changed flag a node merge reports: whether any field's revealed
/// state changed.
pub open spec fn node_changed(a: NodeView, b: NodeView) -> bool {
    ||| fww_changed(a.node_type, b.node_type)
    ||| fww_changed(a.label, b.label)
    ||| (a.hypothetical && !b.hypothetical)
    ||| exists|id: (Seq<char>, Seq<char>)|
        #[trigger] prov_seq_contains_id(b.provenance, id) && !prov_seq_contains_id(
            a.provenance,
            id,
        )
}

/// Whether a structural field (type or label) is in the conflict state.
pub open spec fn node_has_conflict_spec(n: NodeView) -> bool {
    n.node_type is Conflict || n.label is Conflict
}

/// The name of the conflicted field, type before label.
pub open spec fn node_conflict_field_spec(n: NodeView) -> Option<Seq<char>> {
    if n.node_type is Conflict {
        Some("type"@)
    } else if n.label is Conflict {
        Some("label"@)
    } else {
        None
    }
}

/// The revealed states of two node models agree: every field is equal,
/// and the provenance sets list the same identities in the same order.
/// Only the retained timestamps, which identity excludes, may differ.
pub open spec fn node_same_revealed(x: NodeView, y: NodeView) -> bool {
    &&& x.node_type == y.node_type
    &&& x.label == y.label
    &&& x.hypothetical == y.hypothetical
    &&& prov_ids(x.provenance) == prov_ids(y.provenance)
}

/// Node merge is associative.
pub proof fn lemma_node_merge_associative(a: NodeView, b: NodeView, c: NodeView)
    requires
        node_wf(a),
        node_wf(b),
        node_wf(c),
    ensures
        node_merge(node_merge(a, b), c) == node_merge(a, node_merge(b, c)),
{
    lemma_fww_merge_associative(a.node_type, b.node_type, c.node_type);
    lemma_fww_merge_associative(a.label, b.label, c.label);
    lemma_prov_union_assoc(a.provenance, b.provenance, c.provenance);
}

/// Node merge is commutative on revealed state: both orders agree on
/// every field and on the set of provenance identities; only the retained
/// timestamps may differ.
pub proof fn lemma_node_merge_commutative(a: NodeView, b: NodeView)
    requires
        node_wf(a),
        node_wf(b),
    ensures
        node_same_revealed(node_merge(a, b), node_merge(b, a)),
{
    lemma_fww_merge_commutative(a.node_type, b.node_type);
    lemma_fww_merge_commutative(a.label, b.label);
    lemma_prov_union_commutative_ids(a.provenance, b.provenance);
}

/// Node merge is idempotent, and a self-merge reports no change.
pub proof fn lemma_node_merge_idempotent(a: NodeView)
    requires
        node_wf(a),
    ensures
        node_merge(a, a) == a,
        !node_changed(a, a),
{
    lemma_fww_merge_idempotent(a.node_type);
    lemma_fww_merge_idempotent(a.label);
    lemma_prov_union_idempotent(a.provenance);
}

/// `x` absorbs `v`: merging `v` into `x` changes nothing.
pub open spec fn node_absorbs(x: NodeView, v: NodeView) -> bool {
    node_merge(x, v) == x
}

/// A merge result absorbs both of its inputs.
pub proof fn lemma_node_merge_absorbs(x: NodeView, v: NodeView)
    requires
        node_wf(x),
        node_wf(v),
    ensures
        node_wf(node_merge(x, v)),
        node_absorbs(node_merge(x, v), v),
        node_absorbs(node_merge(x, v), x),
{
    let m = node_merge(x, v);
    crate::prov_set::lemma_prov_union_props(x.provenance, v.provenance);
    crate::prov_set::lemma_prov_union_absorb(m.provenance, v.provenance);
    crate::prov_set::lemma_prov_union_absorb(m.provenance, x.provenance);
}

/// Absorption is transitive down a merge chain.
pub proof fn lemma_node_absorbs_trans(y: NodeView, x: NodeView, v: NodeView)
    requires
        node_wf(y),
        node_wf(x),
        node_wf(v),
        node_absorbs(y, x),
        node_absorbs(x, v),
    ensures
        node_absorbs(y, v),
{
    lemma_node_merge_associative(y, x, v);
    assert(node_merge(y, v) == node_merge(node_merge(y, x), v));
}

/// Lattice-backed representation of a node's mutable properties.
pub struct NodeLattice {
    /// First-write-wins cell over the node type.
    pub node_type: TypeCell,
    /// First-write-wins cell over the label.
    pub label: LabelCell,
    /// Monotone flag: `false` (confirmed) absorbs `true` (hypothetical).
    pub hypothetical: MonotoneBool,
    /// Append-only provenance set, deduplicated by `(source, trigger)`.
    pub provenance: ProvSet,
}

impl View for NodeLattice {
    type V = NodeView;

    open spec fn view(&self) -> NodeView {
        NodeView {
            node_type: self.node_type@,
            label: self.label@,
            hypothetical: self.hypothetical@,
            provenance: self.provenance@,
        }
    }
}

impl NodeLattice {
    /// A bundle holding the given values.
    pub fn new(node_type: NodeType, label: String, hypothetical: bool, provenance: ProvSet) -> (r:
        Self)
        ensures
            r@ == (NodeView {
                node_type: CellVal::Value(node_type),
                label: CellVal::Value(label@),
                hypothetical: hypothetical,
                provenance: provenance@,
            }),
    {
        NodeLattice {
            node_type: TypeCell::new(node_type),
            label: LabelCell::new(label),
            hypothetical: MonotoneBool::new(hypothetical),
            provenance,
        }
    }

    /// True iff either structural field (type or label) is in the conflict
    /// state: two agents proposed different values for the same node id.
    pub fn has_conflict(&self) -> (r: bool)
        ensures
            r == node_has_conflict_spec(self@),
    {
        self.node_type.is_conflict() || self.label.is_conflict()
    }

    /// The name of the conflicted field, if any; type is reported before
    /// label.
    pub fn conflict_field(&self) -> (r: Option<&'static str>)
        ensures
            match node_conflict_field_spec(self@) {
                Some(name) => r is Some && r->0@ == name,
                None => r is None,
            },
    {
        if self.node_type.is_conflict() {
            Some("type")
        } else if self.label.is_conflict() {
            Some("label")
        } else {
            None
        }
    }

    /// Merge every field independently; returns whether any field changed.
    pub fn merge(&mut self, other: NodeLattice) -> (changed: bool)
        ensures
            final(self)@ == node_merge(old(self)@, other@),
            changed == node_changed(old(self)@, other@),
    {
        let NodeLattice { node_type, label, hypothetical, provenance } = other;
        let mut changed = self.node_type.merge(node_type);
        changed = self.label.merge(label) || changed;
        changed = self.hypothetical.merge(hypothetical) || changed;
        changed = self.provenance.merge(provenance) || changed;
        changed
    }

    /// Whether the bundle is the bottom lattice value; a node bundle
    /// always carries content, so it never is.
    pub fn is_bot(&self) -> (r: bool)
        ensures
            r == false,
    {
        false
    }

    /// A copy of the bundle.
    pub fn duplicate(&self) -> (r: Self)
        ensures
            r@ == self@,
    {
        NodeLattice {
            node_type: self.node_type.duplicate(),
            label: self.label.duplicate(),
            hypothetical: self.hypothetical.duplicate(),
            provenance: self.provenance.duplicate(),
        }
    }
}

} // verus!
