//! Conversions between wire-shaped messages and the domain lattices, and
//! the synthetic identifier edges are reported under.

use crate::edge::{EdgeKey, EdgeLattice};
use crate::edge_type::EdgeType;
use crate::errors::ConversionError;
use crate::messages::{Edge, Node, ProvInputView, ProvenanceInput, Timestamp};
use crate::node::{NodeLattice, NodeView};
use crate::node_type::NodeType;
use crate::cells::CellVal;
use crate::prov_set::{lemma_prov_union_push, prov_from_seq, prov_union, ProvSet};
use crate::provenance::{ProvView, Provenance};
use vstd::prelude::*;

verus! {

/// The domain record a wire provenance materializes as: a missing
/// timestamp becomes `(0, 0)`.
pub open spec fn prov_input_to_record(p: ProvInputView) -> ProvView {
    ProvView {
        source: p.source,
        trigger: p.trigger,
        seconds: match p.timestamp {
            Some(t) => t.0,
            None => 0,
        },
        nanos: match p.timestamp {
            Some(t) => t.1,
            None => 0,
        },
    }
}

/// The domain records of a sequence of wire provenances.
pub open spec fn prov_records_of_inputs(s: Seq<ProvInputView>) -> Seq<ProvView> {
    Seq::new(s.len(), |i: int| prov_input_to_record(s[i]))
}

/// The node bundle a wire node converts to, its type already decoded.
pub open spec fn node_lattice_of_msg(
    m: crate::messages::NodeMsgView,
    t: NodeType,
) -> NodeView {
    NodeView {
        node_type: CellVal::Value(t),
        label: CellVal::Value(m.label),
        hypothetical: m.hypothetical,
        provenance: prov_from_seq(prov_records_of_inputs(m.provenance)),
    }
}

/// The edge provenance a wire edge converts to.
pub open spec fn edge_lattice_of_msg(m: crate::messages::EdgeMsgView) -> Seq<ProvView> {
    prov_from_seq(prov_records_of_inputs(m.provenance))
}

/// Materialize one wire provenance as a domain record.
pub fn provenance_from_input(p: &ProvenanceInput) -> (r: Provenance)
    ensures
        r@ == prov_input_to_record(p@),
{
    let (seconds, nanos): (i64, i32) = match &p.timestamp {
        Some(t) => (t.seconds, t.nanos),
        None => (0, 0),
    };
    Provenance {
        source: p.source.clone(),
        trigger: p.trigger.clone(),
        timestamp_seconds: seconds,
        timestamp_nanos: nanos,
    }
}

/// Build the deduplicated provenance set of a wire provenance list;
/// earlier records win on identity collision.
pub fn prov_set_from_inputs(v: &Vec<ProvenanceInput>) -> (r: ProvSet)
    ensures
        r@ == prov_from_seq(prov_records_of_inputs(crate::messages::prov_inputs_view(v@))),
{
    let ghost recs = prov_records_of_inputs(crate::messages::prov_inputs_view(v@));
    let mut r = ProvSet::new();
    let n = v.len();
    let mut i: usize = 0;
    while i < n
        invariant
            n == v@.len(),
            i <= n,
            recs == prov_records_of_inputs(crate::messages::prov_inputs_view(v@)),
            recs.len() == n,
            r@ == prov_union(Seq::empty(), recs.take(i as int)),
        decreases n - i,
    {
        let p = provenance_from_input(&v[i]);
        proof {
            assert(p@ == recs[i as int]);
            assert(recs.take(i as int).push(recs[i as int]) =~= recs.take(i as int + 1));
            lemma_prov_union_push(Seq::empty(), recs.take(i as int), recs[i as int]);
        }
        r.insert(p);
        i = i + 1;
    }
    proof {
        assert(recs.take(n as int) =~= recs);
    }
    r
}

/// Convert a wire node into its id and lattice.  Assumes validation has
/// already run; an undecodable type code is still rejected here.
pub fn node_to_domain(node: &Node) -> (r: Result<(String, NodeLattice), ConversionError>)
    ensures
        match r {
            Ok(p) => {
                &&& NodeType::spec_of_code(node@.node_type) is Some
                &&& p.0@ == node@.id
                &&& p.1@ == node_lattice_of_msg(node@, NodeType::spec_of_code(node@.node_type)->0)
            },
            Err(e) => {
                &&& NodeType::spec_of_code(node@.node_type) is None
                &&& e == ConversionError::InvalidNodeType(node.node_type)
            },
        },
{
    let node_type = match NodeType::from_code(node.node_type) {
        Ok(t) => t,
        Err(e) => {
            return Err(e);
        },
    };
    let provenance = prov_set_from_inputs(&node.provenance);
    let lattice = NodeLattice::new(node_type, node.label.clone(), node.hypothetical, provenance);
    Ok((node.id.clone(), lattice))
}

/// Convert a wire edge into its key and lattice.  Assumes validation has
/// already run; an undecodable type code is still rejected here.
pub fn edge_to_domain(edge: &Edge) -> (r: Result<(EdgeKey, EdgeLattice), ConversionError>)
    ensures
        match r {
            Ok(p) => {
                &&& EdgeType::spec_of_code(edge@.edge_type) is Some
                &&& p.0@ == (crate::edge::EdgeKeyView {
                    source: edge@.source,
                    target: edge@.target,
                    edge_type: EdgeType::spec_of_code(edge@.edge_type)->0,
                })
                &&& p.1@ == edge_lattice_of_msg(edge@)
            },
            Err(e) => {
                &&& EdgeType::spec_of_code(edge@.edge_type) is None
                &&& e == ConversionError::InvalidEdgeType(edge.edge_type)
            },
        },
{
    let edge_type = match EdgeType::from_code(edge.edge_type) {
        Ok(t) => t,
        Err(e) => {
            return Err(e);
        },
    };
    let provenance = prov_set_from_inputs(&edge.provenance);
    let key = EdgeKey::new(edge.source.clone(), edge.target.clone(), edge_type);
    Ok((key, EdgeLattice::new(provenance)))
}

/// The wire form of a domain provenance record: the timestamp is always
/// present.
pub open spec fn prov_record_to_input(p: ProvView) -> ProvInputView {
    ProvInputView { source: p.source, trigger: p.trigger, timestamp: Some((p.seconds, p.nanos)) }
}

/// The wire node a stored lattice projects to: a held value is emitted;
/// an empty or conflicted cell projects to the unspecified sentinel for
/// the type and the empty string for the label.
pub open spec fn project_node(id: Seq<char>, n: NodeView) -> crate::messages::NodeMsgView {
    crate::messages::NodeMsgView {
        id: id,
        node_type: match n.node_type {
            CellVal::Value(t) => t.spec_code() as int,
            _ => 0,
        },
        label: match n.label {
            CellVal::Value(l) => l,
            _ => Seq::empty(),
        },
        hypothetical: n.hypothetical,
        provenance: Seq::new(n.provenance.len(), |i: int| prov_record_to_input(n.provenance[i])),
    }
}

/// The wire edge a stored key and lattice project to.
pub open spec fn project_edge(
    key: crate::edge::EdgeKeyView,
    provenance: Seq<ProvView>,
) -> crate::messages::EdgeMsgView {
    crate::messages::EdgeMsgView {
        source: key.source,
        target: key.target,
        edge_type: key.edge_type.spec_code() as int,
        provenance: Seq::new(provenance.len(), |i: int| prov_record_to_input(provenance[i])),
    }
}

/// Emit a provenance set in key order as wire records.
fn prov_inputs_of_set(s: &ProvSet) -> (r: Vec<ProvenanceInput>)
    ensures
        crate::messages::prov_inputs_view(r@) == Seq::new(
            s@.len(),
            |i: int| prov_record_to_input(s@[i]),
        ),
{
    let mut r: Vec<ProvenanceInput> = Vec::new();
    let n = s.len();
    let mut i: usize = 0;
    while i < n
        invariant
            n == s@.len(),
            i <= n,
            r@.len() == i,
            forall|k: int| 0 <= k < i ==> r@[k]@ == prov_record_to_input(s@[k]),
        decreases n - i,
    {
        let p = s.get(i);
        r.push(
            ProvenanceInput {
                source: p.source.clone(),
                trigger: p.trigger.clone(),
                timestamp: Some(Timestamp { seconds: p.timestamp_seconds, nanos: p.timestamp_nanos }),
            },
        );
        i = i + 1;
    }
    proof {
        assert(crate::messages::prov_inputs_view(r@) =~= Seq::new(
            s@.len(),
            |i: int| prov_record_to_input(s@[i]),
        ));
    }
    r
}

/// Serialize a stored node for responses.
pub fn domain_node_to_message(id: String, lattice: &NodeLattice) -> (r: Node)
    ensures
        r@ == project_node(id@, lattice@),
{
    let node_type = match lattice.node_type.value() {
        Some(t) => t.code(),
        None => crate::node_type::NODE_TYPE_UNSPECIFIED,
    };
    let label = match lattice.label.value() {
        Some(l) => l.clone(),
        None => String::new(),
    };
    let provenance = prov_inputs_of_set(&lattice.provenance);
    let r = Node {
        id,
        node_type,
        label,
        hypothetical: lattice.hypothetical.get(),
        provenance,
    };
    r
}

/// Serialize a stored edge for responses.
pub fn domain_edge_to_message(key: &EdgeKey, lattice: &EdgeLattice) -> (r: Edge)
    ensures
        r@ == project_edge(key@, lattice@),
{
    Edge {
        source: key.source.clone(),
        target: key.target.clone(),
        edge_type: key.edge_type.code(),
        provenance: prov_inputs_of_set(&lattice.provenance),
    }
}

/// Relies on `String::push_str`: it appends the slice's characters to the
/// string.
#[verifier::external_body]
fn push_str(s: &mut String, t: &str)
    ensures
        final(s)@ == old(s)@ + t@,
{
    s.push_str(t);
}

/// The synthetic identifier an edge is reported under:
/// `source->target:code`, with the raw integer type code.
pub open spec fn spec_edge_identifier(
    source: Seq<char>,
    target: Seq<char>,
    t: EdgeType,
) -> Seq<char> {
    source + "->"@ + target + ":"@ + t.spec_code_text()
}

/// Build the synthetic reporting identifier of an edge.
pub fn edge_identifier(source: &String, target: &String, t: EdgeType) -> (r: String)
    ensures
        r@ == spec_edge_identifier(source@, target@, t),
{
    let mut r = source.clone();
    push_str(&mut r, "->");
    push_str(&mut r, target.as_str());
    push_str(&mut r, ":");
    let code = t.code_text();
    push_str(&mut r, code.as_str());
    proof {
        assert(r@ =~= spec_edge_identifier(source@, target@, t));
    }
    r
}

} // verus!
