use tee::edge_type::EdgeType;
use tee::errors::StoreError;
use tee::messages::{
    Edge, EdgeTombstoneEntry, EdgeTombstoneRequest, HypothesisDelta, Node, NodeTombstoneRequest,
    ProvenanceInput,
};
use tee::node_type::NodeType;
use tee::store::InMemoryStore;

fn make_prov(source: &str, trigger: &str) -> ProvenanceInput {
    ProvenanceInput { source: source.to_string(), trigger: trigger.to_string(), timestamp: None }
}

fn make_node(id: &str, node_type: i32, label: &str) -> Node {
    Node {
        id: id.to_string(),
        node_type,
        label: label.to_string(),
        hypothetical: true,
        provenance: vec![make_prov("agent-1", "alert")],
    }
}

fn make_edge(source: &str, target: &str, edge_type: i32) -> Edge {
    Edge {
        source: source.to_string(),
        target: target.to_string(),
        edge_type,
        provenance: vec![make_prov("agent-1", "alert")],
    }
}

fn make_delta(nodes: Vec<Node>, edges: Vec<Edge>) -> HypothesisDelta {
    HypothesisDelta { nodes, edges }
}

fn node_tombstones(incident_id: &str, ids: &[&str]) -> NodeTombstoneRequest {
    NodeTombstoneRequest {
        incident_id: incident_id.to_string(),
        node_ids: ids.iter().map(|s| s.to_string()).collect(),
        provenance: Some(make_prov("agent", "elim")),
    }
}

// --- merge_hypothesis ---

#[test]
fn merge_creates_new_nodes() {
    let mut store = InMemoryStore::new();
    let delta = make_delta(vec![make_node("n1", NodeType::Service.code(), "svc")], vec![]);
    let result = store.merge_hypothesis(&delta).unwrap();
    assert_eq!(result.created_ids, vec!["n1"]);
    assert!(result.merged_ids.is_empty());
    assert!(result.conflicts.is_empty());
}

#[test]
fn merge_idempotent_same_node() {
    let mut store = InMemoryStore::new();
    let delta = make_delta(vec![make_node("n1", NodeType::Service.code(), "svc")], vec![]);
    store.merge_hypothesis(&delta).unwrap();
    let result = store.merge_hypothesis(&delta).unwrap();
    assert!(result.created_ids.is_empty());
    assert_eq!(result.merged_ids, vec!["n1"]);
    assert!(result.conflicts.is_empty());
}

#[test]
fn merge_detects_type_conflict() {
    let mut store = InMemoryStore::new();
    let delta1 = make_delta(vec![make_node("n1", NodeType::Service.code(), "svc")], vec![]);
    store.merge_hypothesis(&delta1).unwrap();

    let delta2 = make_delta(vec![make_node("n1", NodeType::Infrastructure.code(), "svc")], vec![]);
    let result = store.merge_hypothesis(&delta2).unwrap();
    assert!(result.created_ids.is_empty());
    assert!(result.merged_ids.is_empty());
    assert_eq!(result.conflicts.len(), 1);
    assert_eq!(result.conflicts[0].id, "n1");
    assert_eq!(result.conflicts[0].field, "type");
}

#[test]
fn merge_conflict_does_not_persist() {
    let mut store = InMemoryStore::new();
    let delta1 = make_delta(vec![make_node("n1", NodeType::Service.code(), "svc")], vec![]);
    store.merge_hypothesis(&delta1).unwrap();

    // Attempt conflicting merge
    let delta2 = make_delta(vec![make_node("n1", NodeType::Infrastructure.code(), "svc")], vec![]);
    store.merge_hypothesis(&delta2).unwrap();

    // Original should be intact; re-merging the same type should work
    let delta3 = make_delta(vec![make_node("n1", NodeType::Service.code(), "svc")], vec![]);
    let result = store.merge_hypothesis(&delta3).unwrap();
    assert!(result.conflicts.is_empty());
    assert_eq!(result.merged_ids, vec!["n1"]);
}

#[test]
fn merge_creates_and_merges_edges() {
    let mut store = InMemoryStore::new();
    let delta1 = make_delta(vec![], vec![make_edge("a", "b", EdgeType::DependsOn.code())]);
    let result1 = store.merge_hypothesis(&delta1).unwrap();
    assert_eq!(result1.created_ids.len(), 1);

    let delta2 = make_delta(vec![], vec![make_edge("a", "b", EdgeType::DependsOn.code())]);
    let result2 = store.merge_hypothesis(&delta2).unwrap();
    assert_eq!(result2.merged_ids.len(), 1);
}

#[test]
fn conflict_reports_existing_display_value() {
    let mut store = InMemoryStore::new();
    store
        .merge_hypothesis(&make_delta(vec![make_node("n1", NodeType::Service.code(), "svc")], vec![]))
        .unwrap();
    let result = store
        .merge_hypothesis(&make_delta(
            vec![make_node("n1", NodeType::Infrastructure.code(), "svc")],
            vec![],
        ))
        .unwrap();
    assert_eq!(result.conflicts[0].existing_value, "SERVICE");
    assert_eq!(result.conflicts[0].proposed_value, "");
}

#[test]
fn conflict_does_not_stop_other_entries() {
    let mut store = InMemoryStore::new();
    store
        .merge_hypothesis(&make_delta(vec![make_node("n1", NodeType::Service.code(), "svc")], vec![]))
        .unwrap();
    let delta = make_delta(
        vec![
            make_node("n1", NodeType::Infrastructure.code(), "svc"), // conflicts
            make_node("n2", NodeType::Service.code(), "other"),      // still applies
        ],
        vec![make_edge("n1", "n2", EdgeType::DependsOn.code())],
    );
    let result = store.merge_hypothesis(&delta).unwrap();
    assert_eq!(result.conflicts.len(), 1);
    assert_eq!(result.created_ids, vec!["n2", "n1->n2:1"]);
    let graph = store.get_main_graph().unwrap();
    assert_eq!(graph.nodes.len(), 2);
    assert_eq!(graph.edges.len(), 1);
}

#[test]
fn pruned_delta_applies_like_the_full_one() {
    // the same store state twice
    let base = make_delta(vec![make_node("n1", NodeType::Service.code(), "svc")], vec![]);
    let mut full_store = InMemoryStore::new();
    full_store.merge_hypothesis(&base).unwrap();
    let mut pruned_store = InMemoryStore::new();
    pruned_store.merge_hypothesis(&base).unwrap();

    // one delta with a conflicting entry, one with that entry dropped
    let full_delta = make_delta(
        vec![
            make_node("n1", NodeType::Infrastructure.code(), "svc"), // conflicts
            make_node("n2", NodeType::Service.code(), "other"),
        ],
        vec![make_edge("n1", "n2", EdgeType::DependsOn.code())],
    );
    let pruned_delta = make_delta(
        vec![make_node("n2", NodeType::Service.code(), "other")],
        vec![make_edge("n1", "n2", EdgeType::DependsOn.code())],
    );

    let full = full_store.merge_hypothesis(&full_delta).unwrap();
    let pruned = pruned_store.merge_hypothesis(&pruned_delta).unwrap();
    assert_eq!(full.created_ids, pruned.created_ids);
    assert_eq!(full.merged_ids, pruned.merged_ids);
    assert_eq!(full.conflicts.len(), 1);
    assert!(pruned.conflicts.is_empty());

    let g1 = full_store.get_main_graph().unwrap();
    let g2 = pruned_store.get_main_graph().unwrap();
    assert_eq!(g1.nodes.len(), g2.nodes.len());
    assert_eq!(g1.edges.len(), g2.edges.len());
    for (a, b) in g1.nodes.iter().zip(g2.nodes.iter()) {
        assert_eq!(a.id, b.id);
        assert_eq!(a.node_type, b.node_type);
        assert_eq!(a.label, b.label);
    }
}

#[test]
fn merge_undecodable_type_code_is_backend_error() {
    let mut store = InMemoryStore::new();
    let delta = make_delta(vec![make_node("n1", 99, "svc")], vec![]);
    let result = store.merge_hypothesis(&delta);
    assert!(matches!(result, Err(StoreError::Backend(_))));
}

#[test]
fn hypothetical_confirmation_survives_retry() {
    let mut store = InMemoryStore::new();
    let mut first = make_node("n1", NodeType::Service.code(), "svc");
    first.hypothetical = true;
    store.merge_hypothesis(&make_delta(vec![first], vec![])).unwrap();

    let mut confirm = make_node("n1", NodeType::Service.code(), "svc");
    confirm.hypothetical = false;
    store.merge_hypothesis(&make_delta(vec![confirm], vec![])).unwrap();

    let mut revert = make_node("n1", NodeType::Service.code(), "svc");
    revert.hypothetical = true;
    store.merge_hypothesis(&make_delta(vec![revert], vec![])).unwrap();

    let graph = store.get_main_graph().unwrap();
    assert_eq!(graph.nodes.len(), 1);
    assert!(!graph.nodes[0].hypothetical, "once confirmed, a node stays confirmed");
}

#[test]
fn replay_of_whole_delta_is_idempotent() {
    let mut store = InMemoryStore::new();
    let delta = make_delta(
        vec![
            make_node("n1", NodeType::Service.code(), "svc1"),
            make_node("n2", NodeType::Service.code(), "svc2"),
        ],
        vec![make_edge("n1", "n2", EdgeType::DependsOn.code())],
    );
    let first = store.merge_hypothesis(&delta).unwrap();
    assert_eq!(first.created_ids, vec!["n1", "n2", "n1->n2:1"]);

    let replay = store.merge_hypothesis(&delta).unwrap();
    assert!(replay.created_ids.is_empty());
    assert!(replay.conflicts.is_empty());
    assert_eq!(replay.merged_ids, first.created_ids);

    // and the observable state is unchanged
    let graph = store.get_main_graph().unwrap();
    assert_eq!(graph.nodes.len(), 2);
    assert_eq!(graph.edges.len(), 1);
    assert_eq!(graph.nodes[0].provenance.len(), 1);
}

// --- create_incident ---

#[test]
fn create_incident_new() {
    let mut store = InMemoryStore::new();
    let result = store.create_incident("inc-1").unwrap();
    assert!(result.created);
    assert_eq!(result.incident_id, "inc-1");
}

#[test]
fn create_incident_idempotent() {
    let mut store = InMemoryStore::new();
    store.create_incident("inc-1").unwrap();
    let result = store.create_incident("inc-1").unwrap();
    assert!(!result.created);
}

// --- get_incident_context ---

#[test]
fn get_incident_context_not_found() {
    let store = InMemoryStore::new();
    let result = store.get_incident_context("nope");
    assert!(matches!(result, Err(StoreError::IncidentNotFound(_))));
}

#[test]
fn get_incident_context_returns_tombstones() {
    let mut store = InMemoryStore::new();
    store.create_incident("inc-1").unwrap();

    // Add a node to the main graph first
    let delta = make_delta(vec![make_node("n1", NodeType::Service.code(), "svc")], vec![]);
    store.merge_hypothesis(&delta).unwrap();

    // Tombstone it
    store.merge_node_tombstones(&node_tombstones("inc-1", &["n1"])).unwrap();

    let ctx = store.get_incident_context("inc-1").unwrap();
    assert_eq!(ctx.incident_id, "inc-1");
    assert!(ctx.created_at.is_some());
    let tombstones = ctx.tombstones.unwrap();
    assert_eq!(tombstones.node_ids, vec!["n1"]);
}

// --- merge_node_tombstones ---

#[test]
fn tombstone_applied_for_existing_node() {
    let mut store = InMemoryStore::new();
    store.create_incident("inc-1").unwrap();

    let delta = make_delta(vec![make_node("n1", NodeType::Service.code(), "svc")], vec![]);
    store.merge_hypothesis(&delta).unwrap();

    let result = store.merge_node_tombstones(&node_tombstones("inc-1", &["n1"])).unwrap();
    assert_eq!(result.applied_ids, vec!["n1"]);
    assert!(result.already_tombstoned_ids.is_empty());
    assert!(result.unmatched_ids.is_empty());
}

#[test]
fn tombstone_unmatched_for_missing_node() {
    let mut store = InMemoryStore::new();
    store.create_incident("inc-1").unwrap();

    let result = store.merge_node_tombstones(&node_tombstones("inc-1", &["ghost"])).unwrap();
    assert!(result.applied_ids.is_empty());
    assert_eq!(result.unmatched_ids, vec!["ghost"]);
}

#[test]
fn tombstone_idempotent() {
    let mut store = InMemoryStore::new();
    store.create_incident("inc-1").unwrap();

    let delta = make_delta(vec![make_node("n1", NodeType::Service.code(), "svc")], vec![]);
    store.merge_hypothesis(&delta).unwrap();

    let req = node_tombstones("inc-1", &["n1"]);
    store.merge_node_tombstones(&req).unwrap();
    let result = store.merge_node_tombstones(&req).unwrap();
    assert!(result.applied_ids.is_empty());
    assert_eq!(result.already_tombstoned_ids, vec!["n1"]);
}

#[test]
fn tombstone_unknown_incident_fails() {
    let mut store = InMemoryStore::new();
    let result = store.merge_node_tombstones(&node_tombstones("nope", &["n1"]));
    assert!(matches!(result, Err(StoreError::IncidentNotFound(_))));
}

// --- merge_edge_tombstones ---

#[test]
fn edge_tombstone_applied() {
    let mut store = InMemoryStore::new();
    store.create_incident("inc-1").unwrap();

    let delta = make_delta(vec![], vec![make_edge("a", "b", EdgeType::DependsOn.code())]);
    store.merge_hypothesis(&delta).unwrap();

    let result = store
        .merge_edge_tombstones(&EdgeTombstoneRequest {
            incident_id: "inc-1".to_string(),
            entries: vec![EdgeTombstoneEntry {
                source: "a".to_string(),
                target: "b".to_string(),
                edge_type: EdgeType::DependsOn.code(),
            }],
            provenance: Some(make_prov("agent", "elim")),
        })
        .unwrap();
    assert_eq!(result.applied_ids.len(), 1);
    assert_eq!(result.applied_ids, vec!["a->b:1"]);
}

#[test]
fn edge_tombstone_unmatched_for_missing_edge() {
    let mut store = InMemoryStore::new();
    store.create_incident("inc-1").unwrap();
    let result = store
        .merge_edge_tombstones(&EdgeTombstoneRequest {
            incident_id: "inc-1".to_string(),
            entries: vec![EdgeTombstoneEntry {
                source: "ghost-a".to_string(),
                target: "ghost-b".to_string(),
                edge_type: EdgeType::DependsOn.code(),
            }],
            provenance: Some(make_prov("agent", "elim")),
        })
        .unwrap();
    assert!(result.applied_ids.is_empty());
    assert_eq!(result.unmatched_ids, vec!["ghost-a->ghost-b:1"]);
}

#[test]
fn edge_tombstone_undecodable_code_is_backend_error() {
    let mut store = InMemoryStore::new();
    store.create_incident("inc-1").unwrap();
    let result = store.merge_edge_tombstones(&EdgeTombstoneRequest {
        incident_id: "inc-1".to_string(),
        entries: vec![EdgeTombstoneEntry {
            source: "a".to_string(),
            target: "b".to_string(),
            edge_type: 99,
        }],
        provenance: Some(make_prov("agent", "elim")),
    });
    assert!(matches!(result, Err(StoreError::Backend(_))));
}

// --- get_live_view ---

#[test]
fn live_view_filters_tombstoned_nodes() {
    let mut store = InMemoryStore::new();
    store.create_incident("inc-1").unwrap();

    let delta = make_delta(
        vec![
            make_node("n1", NodeType::Service.code(), "svc1"),
            make_node("n2", NodeType::Service.code(), "svc2"),
        ],
        vec![],
    );
    store.merge_hypothesis(&delta).unwrap();

    store.merge_node_tombstones(&node_tombstones("inc-1", &["n1"])).unwrap();

    let view = store.get_live_view("inc-1").unwrap();
    assert_eq!(view.nodes.len(), 1);
    assert_eq!(view.nodes[0].id, "n2");
}

#[test]
fn live_view_filters_edges_of_tombstoned_nodes() {
    let mut store = InMemoryStore::new();
    store.create_incident("inc-1").unwrap();

    let delta = make_delta(
        vec![
            make_node("n1", NodeType::Service.code(), "svc1"),
            make_node("n2", NodeType::Service.code(), "svc2"),
            make_node("n3", NodeType::Service.code(), "svc3"),
        ],
        vec![
            make_edge("n1", "n2", EdgeType::DependsOn.code()),
            make_edge("n2", "n3", EdgeType::DependsOn.code()),
        ],
    );
    store.merge_hypothesis(&delta).unwrap();

    // Tombstone n1; the edge n1->n2 should also disappear
    store.merge_node_tombstones(&node_tombstones("inc-1", &["n1"])).unwrap();

    let view = store.get_live_view("inc-1").unwrap();
    assert_eq!(view.nodes.len(), 2);
    assert_eq!(view.edges.len(), 1);
    assert_eq!(view.edges[0].source, "n2");
    assert_eq!(view.edges[0].target, "n3");
}

#[test]
fn live_view_filters_tombstoned_edges() {
    let mut store = InMemoryStore::new();
    store.create_incident("inc-1").unwrap();

    let delta = make_delta(
        vec![
            make_node("n1", NodeType::Service.code(), "svc1"),
            make_node("n2", NodeType::Service.code(), "svc2"),
        ],
        vec![make_edge("n1", "n2", EdgeType::DependsOn.code())],
    );
    store.merge_hypothesis(&delta).unwrap();

    // Tombstone just the edge
    store
        .merge_edge_tombstones(&EdgeTombstoneRequest {
            incident_id: "inc-1".to_string(),
            entries: vec![EdgeTombstoneEntry {
                source: "n1".to_string(),
                target: "n2".to_string(),
                edge_type: EdgeType::DependsOn.code(),
            }],
            provenance: Some(make_prov("agent", "elim")),
        })
        .unwrap();

    let view = store.get_live_view("inc-1").unwrap();
    assert_eq!(view.nodes.len(), 2);
    assert_eq!(view.edges.len(), 0);
}

// --- incident isolation ---

#[test]
fn tombstones_isolated_between_incidents() {
    let mut store = InMemoryStore::new();
    store.create_incident("inc-1").unwrap();
    store.create_incident("inc-2").unwrap();

    let delta = make_delta(
        vec![
            make_node("n1", NodeType::Service.code(), "svc1"),
            make_node("n2", NodeType::Service.code(), "svc2"),
        ],
        vec![],
    );
    store.merge_hypothesis(&delta).unwrap();

    // Tombstone n1 in inc-1 only
    store.merge_node_tombstones(&node_tombstones("inc-1", &["n1"])).unwrap();

    let view1 = store.get_live_view("inc-1").unwrap();
    let view2 = store.get_live_view("inc-2").unwrap();
    assert_eq!(view1.nodes.len(), 1); // n1 tombstoned
    assert_eq!(view2.nodes.len(), 2); // both visible
}

// --- get_main_graph ---

#[test]
fn main_graph_includes_all() {
    let mut store = InMemoryStore::new();
    let delta = make_delta(
        vec![
            make_node("n1", NodeType::Service.code(), "svc1"),
            make_node("n2", NodeType::Service.code(), "svc2"),
        ],
        vec![make_edge("n1", "n2", EdgeType::DependsOn.code())],
    );
    store.merge_hypothesis(&delta).unwrap();

    let graph = store.get_main_graph().unwrap();
    assert_eq!(graph.nodes.len(), 2);
    assert_eq!(graph.edges.len(), 1);
}

// --- get_tombstones ---

#[test]
fn get_tombstones_returns_sets() {
    let mut store = InMemoryStore::new();
    store.create_incident("inc-1").unwrap();

    let delta = make_delta(
        vec![make_node("n1", NodeType::Service.code(), "svc")],
        vec![make_edge("n1", "n2", EdgeType::DependsOn.code())],
    );
    store.merge_hypothesis(&delta).unwrap();

    store.merge_node_tombstones(&node_tombstones("inc-1", &["n1"])).unwrap();

    store
        .merge_edge_tombstones(&EdgeTombstoneRequest {
            incident_id: "inc-1".to_string(),
            entries: vec![EdgeTombstoneEntry {
                source: "n1".to_string(),
                target: "n2".to_string(),
                edge_type: EdgeType::DependsOn.code(),
            }],
            provenance: Some(make_prov("agent", "elim")),
        })
        .unwrap();

    let tombstones = store.get_tombstones("inc-1").unwrap();
    assert_eq!(tombstones.node_ids, vec!["n1"]);
    assert_eq!(tombstones.edge_entries.len(), 1);
}
