//! Edge identity and the edge lattice.
//!
//! An edge is identified by the triple `(source, target, type)`; the
//! triples are totally ordered lexicographically.  The only mutable
//! property of an edge is its provenance set, so edges cannot conflict on
//! merge.

use crate::edge_type::EdgeType;
use crate::order::{cmp_str, lemma_str_lt_trichotomy, lemma_str_lt_trans, str_lt};
use crate::prov_set::ProvSet;
use crate::provenance::ProvView;
use core::cmp::Ordering;
use vstd::prelude::*;

verus! {

/// Mathematical value of an [`EdgeKey`].
pub ghost struct EdgeKeyView {
    pub source: Seq<char>,
    pub target: Seq<char>,
    pub edge_type: EdgeType,
}

/// Strict lexicographic order on edge keys: by source, then target, then
/// the type's wire code.
pub open spec fn edge_key_lt(a: EdgeKeyView, b: EdgeKeyView) -> bool {
    ||| str_lt(a.source, b.source)
    ||| (a.source == b.source && str_lt(a.target, b.target))
    ||| (a.source == b.source && a.target == b.target && a.edge_type.spec_code()
        < b.edge_type.spec_code())
}

/// `edge_key_lt` is a strict total order on edge key values.
pub proof fn lemma_edge_key_lt_trichotomy(a: EdgeKeyView, b: EdgeKeyView)
    ensures
        edge_key_lt(a, b) || a == b || edge_key_lt(b, a),
        edge_key_lt(a, b) ==> a != b && !edge_key_lt(b, a),
        a == b ==> !edge_key_lt(a, b),
{
    lemma_str_lt_trichotomy(a.source, b.source);
    lemma_str_lt_trichotomy(a.target, b.target);
    if a.source == b.source && a.target == b.target && a.edge_type.spec_code()
        == b.edge_type.spec_code() {
        assert(a.edge_type == b.edge_type) by {
            match (a.edge_type, b.edge_type) {
                _ => {},
            }
        }
    }
}

/// `edge_key_lt` is transitive.
pub proof fn lemma_edge_key_lt_trans(a: EdgeKeyView, b: EdgeKeyView, c: EdgeKeyView)
    requires
        edge_key_lt(a, b),
        edge_key_lt(b, c),
    ensures
        edge_key_lt(a, c),
{
    if str_lt(a.source, b.source) && str_lt(b.source, c.source) {
        lemma_str_lt_trans(a.source, b.source, c.source);
    } else if a.source == b.source && b.source == c.source && str_lt(a.target, b.target) && str_lt(
        b.target,
        c.target,
    ) {
        lemma_str_lt_trans(a.target, b.target, c.target);
    }
}

/// Composite identity key for a hypothesis edge.
pub struct EdgeKey {
    pub source: String,
    pub target: String,
    pub edge_type: EdgeType,
}

impl View for EdgeKey {
    type V = EdgeKeyView;

    open spec fn view(&self) -> EdgeKeyView {
        EdgeKeyView { source: self.source@, target: self.target@, edge_type: self.edge_type }
    }
}

impl EdgeKey {
    /// A key from its three components.
    pub fn new(source: String, target: String, edge_type: EdgeType) -> (r: Self)
        ensures
            r@ == (EdgeKeyView { source: source@, target: target@, edge_type: edge_type }),
    {
        EdgeKey { source, target, edge_type }
    }

    /// A copy of the key.
    pub fn duplicate(&self) -> (r: Self)
        ensures
            r@ == self@,
    {
        EdgeKey {
            source: self.source.clone(),
            target: self.target.clone(),
            edge_type: self.edge_type,
        }
    }
}

/// Three-way comparison of edge keys, in their lexicographic order.
pub fn edge_key_cmp(a: &EdgeKey, b: &EdgeKey) -> (o: Ordering)
    ensures
        o == Ordering::Less <==> edge_key_lt(a@, b@),
        o == Ordering::Equal <==> a@ == b@,
        o == Ordering::Greater <==> edge_key_lt(b@, a@),
{
    proof {
        lemma_edge_key_lt_trichotomy(a@, b@);
    }
    let by_source = cmp_str(a.source.as_str(), b.source.as_str());
    if !matches!(by_source, Ordering::Equal) {
        return by_source;
    }
    let by_target = cmp_str(a.target.as_str(), b.target.as_str());
    if !matches!(by_target, Ordering::Equal) {
        return by_target;
    }
    let ca = a.edge_type.code();
    let cb = b.edge_type.code();
    proof {
        if ca == cb {
            match (a.edge_type, b.edge_type) {
                _ => {},
            }
        }
    }
    if ca < cb {
        Ordering::Less
    } else if ca == cb {
        Ordering::Equal
    } else {
        Ordering::Greater
    }
}

impl PartialEq for EdgeKey {
    /// Equality is component-wise.
    fn eq(&self, other: &Self) -> (r: bool) {
        matches!(edge_key_cmp(self, other), Ordering::Equal)
    }
}

impl Eq for EdgeKey {}

impl vstd::std_specs::cmp::PartialEqSpecImpl for EdgeKey {
    open spec fn obeys_eq_spec() -> bool {
        true
    }

    open spec fn eq_spec(&self, other: &Self) -> bool {
        self@ == other@
    }
}

impl PartialOrd for EdgeKey {
    /// The total lexicographic order on `(source, target, type code)`.
    fn partial_cmp(&self, other: &Self) -> (r: Option<Ordering>) {
        Some(edge_key_cmp(self, other))
    }
}

impl vstd::std_specs::cmp::PartialOrdSpecImpl for EdgeKey {
    open spec fn obeys_partial_cmp_spec() -> bool {
        true
    }

    open spec fn partial_cmp_spec(&self, other: &Self) -> Option<Ordering> {
        if edge_key_lt(self@, other@) {
            Some(Ordering::Less)
        } else if self@ == other@ {
            Some(Ordering::Equal)
        } else {
            Some(Ordering::Greater)
        }
    }
}

/// Lattice-backed representation of an edge's mutable properties: only
/// the provenance set.  Identity lives in the enclosing map's [`EdgeKey`].
pub struct EdgeLattice {
    /// Append-only provenance set, deduplicated by `(source, trigger)`.
    pub provenance: ProvSet,
}

impl View for EdgeLattice {
    type V = Seq<ProvView>;

    open spec fn view(&self) -> Seq<ProvView> {
        self.provenance@
    }
}

impl EdgeLattice {
    /// A bundle holding the given provenance set.
    pub fn new(provenance: ProvSet) -> (r: Self)
        ensures
            r@ == provenance@,
    {
        EdgeLattice { provenance }
    }

    /// Merge the provenance sets; returns whether this edge changed.
    pub fn merge(&mut self, other: EdgeLattice) -> (changed: bool)
        ensures
            final(self)@ == crate::prov_set::prov_union(old(self)@, other@),
            changed == exists|id: (Seq<char>, Seq<char>)|
                #[trigger] crate::prov_set::prov_seq_contains_id(other@, id)
                    && !crate::prov_set::prov_seq_contains_id(old(self)@, id),
    {
        self.provenance.merge(other.provenance)
    }

    /// Whether the bundle is the bottom lattice value: an empty
    /// provenance set.
    pub fn is_bot(&self) -> (r: bool)
        ensures
            r == (self@.len() == 0),
    {
        self.provenance.len() == 0
    }

    /// A copy of the bundle.
    pub fn duplicate(&self) -> (r: Self)
        ensures
            r@ == self@,
    {
        EdgeLattice { provenance: self.provenance.duplicate() }
    }
}

} // verus!
