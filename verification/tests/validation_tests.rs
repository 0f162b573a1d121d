use tee::edge_type::EdgeType;
use tee::errors::ValidationError;
use tee::messages::{
    Edge, EdgeTombstoneEntry, EdgeTombstoneRequest, Node, NodeTombstoneRequest, ProvenanceInput,
};
use tee::node_type::NodeType;
use tee::validation::{
    validate_edge, validate_edge_tombstone_request, validate_incident_id, validate_node,
    validate_node_tombstone_request, validate_provenance,
};

fn valid_provenance() -> ProvenanceInput {
    ProvenanceInput {
        source: "agent-1".to_string(),
        timestamp: None,
        trigger: "alert-fired".to_string(),
    }
}

fn valid_node() -> Node {
    Node {
        id: "node-1".to_string(),
        node_type: NodeType::Service.code(),
        label: "api-gateway".to_string(),
        hypothetical: true,
        provenance: vec![valid_provenance()],
    }
}

fn valid_edge() -> Edge {
    Edge {
        source: "node-1".to_string(),
        target: "node-2".to_string(),
        edge_type: EdgeType::DependsOn.code(),
        provenance: vec![valid_provenance()],
    }
}

// --- Node validation ---

#[test]
fn valid_node_passes() {
    assert!(validate_node(&valid_node()).is_ok());
}

#[test]
fn empty_node_id_rejected() {
    let mut n = valid_node();
    n.id = "".to_string();
    assert!(matches!(validate_node(&n), Err(ValidationError::EmptyNodeId)));
}

#[test]
fn validation_unspecified_node_type_rejected() {
    let mut n = valid_node();
    n.node_type = tee::node_type::NODE_TYPE_UNSPECIFIED;
    assert!(matches!(validate_node(&n), Err(ValidationError::UnspecifiedNodeType)));
}

#[test]
fn undecodable_node_type_code_rejected() {
    let mut n = valid_node();
    n.node_type = 99;
    assert!(matches!(validate_node(&n), Err(ValidationError::UnspecifiedNodeType)));
}

#[test]
fn empty_node_label_rejected() {
    let mut n = valid_node();
    n.label = "".to_string();
    assert!(matches!(validate_node(&n), Err(ValidationError::EmptyNodeLabel)));
}

#[test]
fn node_missing_provenance_rejected() {
    let mut n = valid_node();
    n.provenance.clear();
    assert!(matches!(validate_node(&n), Err(ValidationError::MissingProvenance)));
}

#[test]
fn node_empty_provenance_source_rejected() {
    let mut n = valid_node();
    n.provenance[0].source = "".to_string();
    assert!(matches!(validate_node(&n), Err(ValidationError::EmptyProvenanceSource)));
}

// --- Edge validation ---

#[test]
fn valid_edge_passes() {
    assert!(validate_edge(&valid_edge()).is_ok());
}

#[test]
fn empty_edge_source_rejected() {
    let mut e = valid_edge();
    e.source = "".to_string();
    assert!(matches!(validate_edge(&e), Err(ValidationError::EmptyEdgeSource)));
}

#[test]
fn empty_edge_target_rejected() {
    let mut e = valid_edge();
    e.target = "".to_string();
    assert!(matches!(validate_edge(&e), Err(ValidationError::EmptyEdgeTarget)));
}

#[test]
fn self_loop_rejected() {
    let mut e = valid_edge();
    e.target = e.source.clone();
    assert!(matches!(validate_edge(&e), Err(ValidationError::SelfLoop(_))));
}

#[test]
fn unspecified_edge_type_rejected() {
    let mut e = valid_edge();
    e.edge_type = tee::edge_type::EDGE_TYPE_UNSPECIFIED;
    assert!(matches!(validate_edge(&e), Err(ValidationError::UnspecifiedEdgeType)));
}

#[test]
fn undecodable_edge_type_code_rejected() {
    let mut e = valid_edge();
    e.edge_type = 99;
    assert!(matches!(validate_edge(&e), Err(ValidationError::UnspecifiedEdgeType)));
}

// --- Tombstone validation ---

#[test]
fn valid_node_tombstone_passes() {
    let req = NodeTombstoneRequest {
        incident_id: "inc-1".to_string(),
        node_ids: vec!["n1".to_string()],
        provenance: Some(valid_provenance()),
    };
    assert!(validate_node_tombstone_request(&req).is_ok());
}

#[test]
fn tombstone_empty_incident_id_rejected() {
    let req = NodeTombstoneRequest {
        incident_id: "".to_string(),
        node_ids: vec!["n1".to_string()],
        provenance: Some(valid_provenance()),
    };
    assert!(matches!(
        validate_node_tombstone_request(&req),
        Err(ValidationError::EmptyIncidentId)
    ));
}

#[test]
fn tombstone_empty_ids_rejected() {
    let req = NodeTombstoneRequest {
        incident_id: "inc-1".to_string(),
        node_ids: vec![],
        provenance: Some(valid_provenance()),
    };
    assert!(matches!(
        validate_node_tombstone_request(&req),
        Err(ValidationError::EmptyTombstoneSet)
    ));
}

#[test]
fn tombstone_missing_provenance_rejected() {
    let req = NodeTombstoneRequest {
        incident_id: "inc-1".to_string(),
        node_ids: vec!["n1".to_string()],
        provenance: None,
    };
    assert!(matches!(
        validate_node_tombstone_request(&req),
        Err(ValidationError::MissingProvenance)
    ));
}

#[test]
fn edge_tombstone_entry_checked() {
    let req = EdgeTombstoneRequest {
        incident_id: "inc-1".to_string(),
        entries: vec![EdgeTombstoneEntry {
            source: "a".to_string(),
            target: "b".to_string(),
            edge_type: tee::edge_type::EDGE_TYPE_UNSPECIFIED,
        }],
        provenance: Some(valid_provenance()),
    };
    assert!(matches!(
        validate_edge_tombstone_request(&req),
        Err(ValidationError::UnspecifiedEdgeType)
    ));
}

#[test]
fn provenance_empty_trigger_rejected() {
    let mut p = valid_provenance();
    p.trigger = "".to_string();
    assert!(matches!(validate_provenance(&p), Err(ValidationError::EmptyProvenanceTrigger)));
}

#[test]
fn empty_incident_id_rejected() {
    assert!(matches!(validate_incident_id(""), Err(ValidationError::EmptyIncidentId)));
    assert!(validate_incident_id("inc-1").is_ok());
}
