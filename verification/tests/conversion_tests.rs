use tee::convert::{
    domain_edge_to_message, domain_node_to_message, edge_identifier, edge_to_domain,
    node_to_domain, provenance_from_input,
};
use tee::edge_type::EdgeType;
use tee::messages::{Edge, Node, ProvenanceInput, Timestamp};
use tee::node_type::NodeType;

fn wire_prov(source: &str, trigger: &str, timestamp: Option<Timestamp>) -> ProvenanceInput {
    ProvenanceInput { source: source.to_string(), trigger: trigger.to_string(), timestamp }
}

#[test]
fn node_type_roundtrip() {
    for nt in [
        NodeType::Service,
        NodeType::Dependency,
        NodeType::Infrastructure,
        NodeType::Mechanism,
    ] {
        let i = nt.code();
        let back = NodeType::from_code(i).unwrap();
        assert_eq!(nt, back);
    }
}

#[test]
fn edge_type_roundtrip() {
    for et in [EdgeType::DependsOn, EdgeType::PropagatesTo, EdgeType::ManifestsAs] {
        let i = et.code();
        let back = EdgeType::from_code(i).unwrap();
        assert_eq!(et, back);
    }
}

#[test]
fn invalid_node_type_rejected() {
    assert!(NodeType::from_code(99).is_err());
}

#[test]
fn proto_convert_unspecified_node_type_rejected() {
    assert!(NodeType::from_code(tee::node_type::NODE_TYPE_UNSPECIFIED).is_err());
}

#[test]
fn provenance_roundtrip() {
    let wire = wire_prov("agent-1", "alert", Some(Timestamp { seconds: 1000, nanos: 500 }));
    let domain = provenance_from_input(&wire);
    assert_eq!(domain.source, "agent-1");
    assert_eq!(domain.trigger, "alert");
    assert_eq!(domain.timestamp_seconds, 1000);
    assert_eq!(domain.timestamp_nanos, 500);
}

#[test]
fn missing_timestamp_materializes_as_zero() {
    let domain = provenance_from_input(&wire_prov("agent-1", "alert", None));
    assert_eq!(domain.timestamp_seconds, 0);
    assert_eq!(domain.timestamp_nanos, 0);
}

#[test]
fn node_roundtrip() {
    let wire_node = Node {
        id: "n1".to_string(),
        node_type: NodeType::Service.code(),
        label: "api-gw".to_string(),
        hypothetical: true,
        provenance: vec![wire_prov("a", "t", None)],
    };
    let (id, lattice) = node_to_domain(&wire_node).unwrap();
    assert_eq!(id, "n1");

    let back = domain_node_to_message(id, &lattice);
    assert_eq!(back.id, "n1");
    assert_eq!(back.node_type, NodeType::Service.code());
    assert_eq!(back.label, "api-gw");
    assert!(back.hypothetical);
    assert_eq!(back.provenance.len(), 1);
}

#[test]
fn edge_roundtrip() {
    let wire_edge = Edge {
        source: "a".to_string(),
        target: "b".to_string(),
        edge_type: EdgeType::DependsOn.code(),
        provenance: vec![wire_prov("agent", "scan", None)],
    };
    let (key, lattice) = edge_to_domain(&wire_edge).unwrap();
    assert_eq!(key.source, "a");
    assert_eq!(key.target, "b");
    assert_eq!(key.edge_type, EdgeType::DependsOn);

    let back = domain_edge_to_message(&key, &lattice);
    assert_eq!(back.source, "a");
    assert_eq!(back.target, "b");
    assert_eq!(back.edge_type, EdgeType::DependsOn.code());
    assert_eq!(back.provenance.len(), 1);
}

#[test]
fn display_names() {
    assert_eq!(NodeType::Service.display_name(), "SERVICE");
    assert_eq!(NodeType::Dependency.display_name(), "DEPENDENCY");
    assert_eq!(NodeType::Infrastructure.display_name(), "INFRASTRUCTURE");
    assert_eq!(NodeType::Mechanism.display_name(), "MECHANISM");
    assert_eq!(EdgeType::DependsOn.display_name(), "DEPENDS_ON");
    assert_eq!(EdgeType::PropagatesTo.display_name(), "PROPAGATES_TO");
    assert_eq!(EdgeType::ManifestsAs.display_name(), "MANIFESTS_AS");
}

#[test]
fn edge_identifier_uses_raw_type_code() {
    let id = edge_identifier(&"a".to_string(), &"b".to_string(), EdgeType::PropagatesTo);
    assert_eq!(id, "a->b:2");
}

#[test]
fn invalid_edge_type_rejected() {
    assert!(EdgeType::from_code(99).is_err());
    assert!(EdgeType::from_code(tee::edge_type::EDGE_TYPE_UNSPECIFIED).is_err());
}

#[test]
fn node_conversion_dedups_provenance() {
    let wire_node = Node {
        id: "n1".to_string(),
        node_type: NodeType::Service.code(),
        label: "svc".to_string(),
        hypothetical: true,
        provenance: vec![
            wire_prov("a", "t", Some(Timestamp { seconds: 7, nanos: 0 })),
            wire_prov("a", "t", Some(Timestamp { seconds: 9, nanos: 0 })),
        ],
    };
    let (_, lattice) = node_to_domain(&wire_node).unwrap();
    assert_eq!(lattice.provenance.len(), 1);
    // first-write-wins on the excluded timestamp
    assert_eq!(lattice.provenance.get(0).timestamp_seconds, 7);
}
