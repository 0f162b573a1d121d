//! Boundary well-formedness checks, run before a payload reaches the
//! store.  Each check states exactly which error each input earns: the
//! error of the first failing check, in the order the checks run.

use crate::edge_type::{EdgeType, EDGE_TYPE_UNSPECIFIED};
use crate::errors::ValidationError;
use crate::messages::{
    prov_inputs_view, Edge, EdgeMsgView, EdgeTombstoneEntryView, EdgeTombstoneRequest,
    HypothesisDelta, Node, NodeMsgView, NodeTombstoneRequest, ProvInputView, ProvenanceInput,
};
use crate::node_type::NodeType;
use vstd::prelude::*;

verus! {

/// A provenance record is well formed: source and trigger are non-empty.
pub open spec fn spec_provenance_ok(p: ProvInputView) -> bool {
    p.source.len() > 0 && p.trigger.len() > 0
}

/// Every provenance record in the sequence is well formed.
pub open spec fn spec_all_provenance_ok(s: Seq<ProvInputView>) -> bool {
    forall|i: int| 0 <= i < s.len() ==> spec_provenance_ok(#[trigger] s[i])
}

/// A node payload is well formed; the type must be one of the four real
/// variants, so the unspecified sentinel and every other undecodable
/// code are rejected.
pub open spec fn spec_node_ok(n: NodeMsgView) -> bool {
    &&& n.id.len() > 0
    &&& NodeType::spec_of_code(n.node_type) is Some
    &&& n.label.len() > 0
    &&& n.provenance.len() > 0
    &&& spec_all_provenance_ok(n.provenance)
}

/// An edge payload is well formed; the type must be one of the three
/// real variants, so the unspecified sentinel and every other
/// undecodable code are rejected.
pub open spec fn spec_edge_ok(e: EdgeMsgView) -> bool {
    &&& e.source.len() > 0
    &&& e.target.len() > 0
    &&& e.source != e.target
    &&& EdgeType::spec_of_code(e.edge_type) is Some
    &&& e.provenance.len() > 0
    &&& spec_all_provenance_ok(e.provenance)
}

/// A whole delta is well formed.
pub open spec fn spec_delta_ok(d: crate::messages::DeltaView) -> bool {
    &&& forall|i: int| 0 <= i < d.nodes.len() ==> spec_node_ok(#[trigger] d.nodes[i])
    &&& forall|i: int| 0 <= i < d.edges.len() ==> spec_edge_ok(#[trigger] d.edges[i])
}

/// An edge tombstone entry is well formed.
pub open spec fn spec_edge_entry_ok(e: EdgeTombstoneEntryView) -> bool {
    &&& e.source.len() > 0
    &&& e.target.len() > 0
    &&& e.edge_type != EDGE_TYPE_UNSPECIFIED as int
}

/// A node tombstone request is well formed.
pub open spec fn spec_node_tombstone_request_ok(r: &NodeTombstoneRequest) -> bool {
    &&& r.incident_id@.len() > 0
    &&& r.node_ids@.len() > 0
    &&& r.provenance is Some && spec_provenance_ok(r.provenance->0@)
}

/// An edge tombstone request is well formed.
pub open spec fn spec_edge_tombstone_request_ok(r: &EdgeTombstoneRequest) -> bool {
    &&& r.incident_id@.len() > 0
    &&& r.entries@.len() > 0
    &&& r.provenance is Some && spec_provenance_ok(r.provenance->0@)
    &&& forall|i: int| 0 <= i < r.entries@.len() ==> spec_edge_entry_ok(#[trigger] r.entries@[i]@)
}

/// The error a provenance record earns: an empty source, or, the source
/// being non-empty, an empty trigger.
pub open spec fn spec_provenance_error(p: ProvInputView, e: ValidationError) -> bool {
    match e {
        ValidationError::EmptyProvenanceSource => p.source.len() == 0,
        ValidationError::EmptyProvenanceTrigger => p.source.len() > 0 && p.trigger.len() == 0,
        _ => false,
    }
}

/// The error a provenance list earns: its first invalid record's error.
pub open spec fn spec_prov_list_error(s: Seq<ProvInputView>, e: ValidationError) -> bool {
    exists|i: int|
        0 <= i < s.len() && (forall|j: int| 0 <= j < i ==> spec_provenance_ok(#[trigger] s[j]))
            && spec_provenance_error(#[trigger] s[i], e)
}

/// The error a node payload earns: the first failing check, in order
/// id, type, label, provenance presence, then the provenance records.
pub open spec fn spec_node_error(n: NodeMsgView, e: ValidationError) -> bool {
    match e {
        ValidationError::EmptyNodeId => n.id.len() == 0,
        ValidationError::UnspecifiedNodeType => n.id.len() > 0 && NodeType::spec_of_code(
            n.node_type,
        ) is None,
        ValidationError::EmptyNodeLabel => n.id.len() > 0 && NodeType::spec_of_code(
            n.node_type,
        ) is Some && n.label.len() == 0,
        ValidationError::MissingProvenance => n.id.len() > 0 && NodeType::spec_of_code(
            n.node_type,
        ) is Some && n.label.len() > 0 && n.provenance.len() == 0,
        ValidationError::EmptyProvenanceSource | ValidationError::EmptyProvenanceTrigger => n.id.len()
            > 0 && NodeType::spec_of_code(n.node_type) is Some && n.label.len() > 0
            && n.provenance.len() > 0 && spec_prov_list_error(n.provenance, e),
        _ => false,
    }
}

/// The error an edge payload earns: the first failing check, in order
/// source, target, self-loop, type, provenance presence, then the
/// provenance records.
pub open spec fn spec_edge_error(ed: EdgeMsgView, e: ValidationError) -> bool {
    match e {
        ValidationError::EmptyEdgeSource => ed.source.len() == 0,
        ValidationError::EmptyEdgeTarget => ed.source.len() > 0 && ed.target.len() == 0,
        ValidationError::SelfLoop(id) => ed.source.len() > 0 && ed.target.len() > 0 && ed.source
            == ed.target && id@ == ed.source,
        ValidationError::UnspecifiedEdgeType => ed.source.len() > 0 && ed.target.len() > 0
            && ed.source != ed.target && EdgeType::spec_of_code(ed.edge_type) is None,
        ValidationError::MissingProvenance => ed.source.len() > 0 && ed.target.len() > 0
            && ed.source != ed.target && EdgeType::spec_of_code(ed.edge_type) is Some
            && ed.provenance.len() == 0,
        ValidationError::EmptyProvenanceSource | ValidationError::EmptyProvenanceTrigger => ed.source.len()
            > 0 && ed.target.len() > 0 && ed.source != ed.target && EdgeType::spec_of_code(
            ed.edge_type,
        ) is Some && ed.provenance.len() > 0 && spec_prov_list_error(ed.provenance, e),
        _ => false,
    }
}

/// The error an edge tombstone entry earns: an empty source, then an
/// empty target, then the unspecified type sentinel.
pub open spec fn spec_edge_entry_error(en: EdgeTombstoneEntryView, e: ValidationError) -> bool {
    match e {
        ValidationError::EmptyEdgeSource => en.source.len() == 0,
        ValidationError::EmptyEdgeTarget => en.source.len() > 0 && en.target.len() == 0,
        ValidationError::UnspecifiedEdgeType => en.source.len() > 0 && en.target.len() > 0
            && en.edge_type == EDGE_TYPE_UNSPECIFIED as int,
        _ => false,
    }
}

/// Check one provenance record: non-empty source, then non-empty trigger.
pub fn validate_provenance(prov: &ProvenanceInput) -> (r: Result<(), ValidationError>)
    ensures
        r is Ok <==> spec_provenance_ok(prov@),
        r matches Err(e) ==> spec_provenance_error(prov@, e),
{
    if prov.source.as_str().is_empty() {
        return Err(ValidationError::EmptyProvenanceSource);
    }
    if prov.trigger.as_str().is_empty() {
        return Err(ValidationError::EmptyProvenanceTrigger);
    }
    Ok(())
}

/// Check a list of provenance records in order: a failure is the first
/// invalid record's error.
fn validate_provenance_list(provs: &Vec<ProvenanceInput>) -> (r: Result<(), ValidationError>)
    ensures
        r is Ok <==> spec_all_provenance_ok(prov_inputs_view(provs@)),
        r matches Err(e) ==> spec_prov_list_error(prov_inputs_view(provs@), e),
{
    let n = provs.len();
    let mut i: usize = 0;
    while i < n
        invariant
            n == provs@.len(),
            i <= n,
            forall|k: int| 0 <= k < i ==> spec_provenance_ok(#[trigger] prov_inputs_view(provs@)[k]),
        decreases n - i,
    {
        match validate_provenance(&provs[i]) {
            Ok(_) => {},
            Err(e) => {
                proof {
                    assert(spec_provenance_error(prov_inputs_view(provs@)[i as int], e));
                    assert(!spec_provenance_ok(prov_inputs_view(provs@)[i as int]));
                }
                return Err(e);
            },
        }
        i = i + 1;
    }
    Ok(())
}

/// Check a node payload: id, type, label, provenance presence, then each
/// provenance record in order.  A failure is the first failing check's
/// error.
pub fn validate_node(node: &Node) -> (r: Result<(), ValidationError>)
    ensures
        r is Ok <==> spec_node_ok(node@),
        r matches Err(e) ==> spec_node_error(node@, e),
{
    if node.id.as_str().is_empty() {
        return Err(ValidationError::EmptyNodeId);
    }
    if NodeType::from_code(node.node_type).is_err() {
        return Err(ValidationError::UnspecifiedNodeType);
    }
    if node.label.as_str().is_empty() {
        return Err(ValidationError::EmptyNodeLabel);
    }
    if node.provenance.len() == 0 {
        return Err(ValidationError::MissingProvenance);
    }
    let r = validate_provenance_list(&node.provenance);
    proof {
        if r is Err {
            let e = r->Err_0;
            assert(spec_prov_list_error(node@.provenance, e));
            let i = choose|i: int|
                0 <= i < node@.provenance.len() && (forall|j: int|
                    0 <= j < i ==> spec_provenance_ok(#[trigger] node@.provenance[j]))
                    && spec_provenance_error(#[trigger] node@.provenance[i], e);
            assert(spec_provenance_error(node@.provenance[i], e));
            assert(spec_node_error(node@, e));
        }
    }
    r
}

/// Check an edge payload: source, target, self-loop, type, provenance
/// presence, then each provenance record in order.  A failure is the
/// first failing check's error.
pub fn validate_edge(edge: &Edge) -> (r: Result<(), ValidationError>)
    ensures
        r is Ok <==> spec_edge_ok(edge@),
        r matches Err(e) ==> spec_edge_error(edge@, e),
{
    if edge.source.as_str().is_empty() {
        return Err(ValidationError::EmptyEdgeSource);
    }
    if edge.target.as_str().is_empty() {
        return Err(ValidationError::EmptyEdgeTarget);
    }
    if edge.source == edge.target {
        return Err(ValidationError::SelfLoop(edge.source.clone()));
    }
    if EdgeType::from_code(edge.edge_type).is_err() {
        return Err(ValidationError::UnspecifiedEdgeType);
    }
    if edge.provenance.len() == 0 {
        return Err(ValidationError::MissingProvenance);
    }
    let r = validate_provenance_list(&edge.provenance);
    proof {
        if r is Err {
            let e = r->Err_0;
            assert(spec_prov_list_error(edge@.provenance, e));
            let i = choose|i: int|
                0 <= i < edge@.provenance.len() && (forall|j: int|
                    0 <= j < i ==> spec_provenance_ok(#[trigger] edge@.provenance[j]))
                    && spec_provenance_error(#[trigger] edge@.provenance[i], e);
            assert(spec_provenance_error(edge@.provenance[i], e));
            assert(spec_edge_error(edge@, e));
        }
    }
    r
}

/// Check a whole delta: every node in order, then every edge in order.
/// A failure is the verdict of the first invalid element, nodes first:
/// the returned error is that element's own validation error.
pub fn validate_hypothesis_delta(delta: &HypothesisDelta) -> (r: Result<(), ValidationError>)
    ensures
        r is Ok <==> spec_delta_ok(delta@),
        r matches Err(e) ==> {
            ||| exists|i: int|
                0 <= i < delta@.nodes.len() && (forall|j: int|
                    0 <= j < i ==> spec_node_ok(#[trigger] delta@.nodes[j])) && spec_node_error(
                    #[trigger] delta@.nodes[i],
                    e,
                )
            ||| ((forall|j: int| 0 <= j < delta@.nodes.len() ==> spec_node_ok(
                #[trigger] delta@.nodes[j],
            )) && exists|i: int|
                0 <= i < delta@.edges.len() && (forall|j: int|
                    0 <= j < i ==> spec_edge_ok(#[trigger] delta@.edges[j])) && spec_edge_error(
                    #[trigger] delta@.edges[i],
                    e,
                ))
        },
{
    let n = delta.nodes.len();
    let mut i: usize = 0;
    while i < n
        invariant
            n == delta.nodes@.len(),
            i <= n,
            forall|k: int| 0 <= k < i ==> spec_node_ok(#[trigger] delta@.nodes[k]),
        decreases n - i,
    {
        match validate_node(&delta.nodes[i]) {
            Ok(_) => {},
            Err(e) => {
                proof {
                    assert(spec_node_error(delta@.nodes[i as int], e));
                    assert(!spec_node_ok(delta@.nodes[i as int]));
                }
                return Err(e);
            },
        }
        i = i + 1;
    }
    let m = delta.edges.len();
    let mut j: usize = 0;
    while j < m
        invariant
            n == delta.nodes@.len(),
            m == delta.edges@.len(),
            forall|k: int| 0 <= k < n ==> spec_node_ok(#[trigger] delta@.nodes[k]),
            j <= m,
            forall|k: int| 0 <= k < j ==> spec_edge_ok(#[trigger] delta@.edges[k]),
        decreases m - j,
    {
        match validate_edge(&delta.edges[j]) {
            Ok(_) => {},
            Err(e) => {
                proof {
                    assert(spec_edge_error(delta@.edges[j as int], e));
                    assert(!spec_edge_ok(delta@.edges[j as int]));
                }
                return Err(e);
            },
        }
        j = j + 1;
    }
    Ok(())
}

/// Check a node tombstone request: incident id, target set, then the
/// provenance.  A failure is the first failing check's error.
pub fn validate_node_tombstone_request(req: &NodeTombstoneRequest) -> (r: Result<
    (),
    ValidationError,
>)
    ensures
        r is Ok <==> spec_node_tombstone_request_ok(req),
        r matches Err(e) ==> match e {
            ValidationError::EmptyIncidentId => req.incident_id@.len() == 0,
            ValidationError::EmptyTombstoneSet => req.incident_id@.len() > 0 && req.node_ids@.len()
                == 0,
            ValidationError::MissingProvenance => req.incident_id@.len() > 0
                && req.node_ids@.len() > 0 && req.provenance is None,
            ValidationError::EmptyProvenanceSource | ValidationError::EmptyProvenanceTrigger => req.incident_id@.len()
                > 0 && req.node_ids@.len() > 0 && req.provenance is Some
                && spec_provenance_error(req.provenance->0@, e),
            _ => false,
        },
{
    if req.incident_id.as_str().is_empty() {
        return Err(ValidationError::EmptyIncidentId);
    }
    if req.node_ids.len() == 0 {
        return Err(ValidationError::EmptyTombstoneSet);
    }
    match &req.provenance {
        Some(prov) => match validate_provenance(prov) {
            Ok(_) => {},
            Err(e) => {
                return Err(e);
            },
        },
        None => {
            return Err(ValidationError::MissingProvenance);
        },
    }
    Ok(())
}

/// Check an edge tombstone request: incident id, target set, the
/// provenance, then each entry's source, target and type in entry order.
/// A failure is the first failing check's error.
pub fn validate_edge_tombstone_request(req: &EdgeTombstoneRequest) -> (r: Result<
    (),
    ValidationError,
>)
    ensures
        r is Ok <==> spec_edge_tombstone_request_ok(req),
        r matches Err(e) ==> match e {
            ValidationError::EmptyIncidentId => req.incident_id@.len() == 0,
            ValidationError::EmptyTombstoneSet => req.incident_id@.len() > 0 && req.entries@.len()
                == 0,
            ValidationError::MissingProvenance => req.incident_id@.len() > 0 && req.entries@.len()
                > 0 && req.provenance is None,
            ValidationError::EmptyProvenanceSource | ValidationError::EmptyProvenanceTrigger => req.incident_id@.len()
                > 0 && req.entries@.len() > 0 && req.provenance is Some && spec_provenance_error(
                req.provenance->0@,
                e,
            ),
            ValidationError::EmptyEdgeSource | ValidationError::EmptyEdgeTarget
                | ValidationError::UnspecifiedEdgeType => req.incident_id@.len() > 0
                && req.entries@.len() > 0 && req.provenance is Some && spec_provenance_ok(
                req.provenance->0@,
            ) && exists|i: int|
                0 <= i < req.entries@.len() && (forall|j: int|
                    0 <= j < i ==> spec_edge_entry_ok(#[trigger] req.entries@[j]@))
                    && spec_edge_entry_error((#[trigger] req.entries@[i])@, e),
            _ => false,
        },
{
    if req.incident_id.as_str().is_empty() {
        return Err(ValidationError::EmptyIncidentId);
    }
    if req.entries.len() == 0 {
        return Err(ValidationError::EmptyTombstoneSet);
    }
    match &req.provenance {
        Some(prov) => match validate_provenance(prov) {
            Ok(_) => {},
            Err(e) => {
                return Err(e);
            },
        },
        None => {
            return Err(ValidationError::MissingProvenance);
        },
    }
    let n = req.entries.len();
    let mut i: usize = 0;
    while i < n
        invariant
            n == req.entries@.len(),
            i <= n,
            req.incident_id@.len() > 0,
            req.entries@.len() > 0,
            req.provenance is Some && spec_provenance_ok(req.provenance->0@),
            forall|k: int| 0 <= k < i ==> spec_edge_entry_ok(#[trigger] req.entries@[k]@),
        decreases n - i,
    {
        let entry = &req.entries[i];
        if entry.source.as_str().is_empty() {
            proof {
                assert(spec_edge_entry_error(req.entries@[i as int]@, ValidationError::EmptyEdgeSource));
                assert(!spec_edge_entry_ok(req.entries@[i as int]@));
            }
            return Err(ValidationError::EmptyEdgeSource);
        }
        if entry.target.as_str().is_empty() {
            proof {
                assert(spec_edge_entry_error(req.entries@[i as int]@, ValidationError::EmptyEdgeTarget));
                assert(!spec_edge_entry_ok(req.entries@[i as int]@));
            }
            return Err(ValidationError::EmptyEdgeTarget);
        }
        if entry.edge_type == EDGE_TYPE_UNSPECIFIED {
            proof {
                assert(spec_edge_entry_error(
                    req.entries@[i as int]@,
                    ValidationError::UnspecifiedEdgeType,
                ));
                assert(!spec_edge_entry_ok(req.entries@[i as int]@));
            }
            return Err(ValidationError::UnspecifiedEdgeType);
        }
        i = i + 1;
    }
    Ok(())
}

/// Check an incident id: non-empty.
pub fn validate_incident_id(incident_id: &str) -> (r: Result<(), ValidationError>)
    ensures
        r is Ok <==> incident_id@.len() > 0,
        r matches Err(e) ==> e matches ValidationError::EmptyIncidentId && incident_id@.len() == 0,
{
    if incident_id.is_empty() {
        return Err(ValidationError::EmptyIncidentId);
    }
    Ok(())
}

} // verus!
