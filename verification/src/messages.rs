//! The payload shapes the boundary hands to the core and receives back.
//!
//! These mirror the wire messages: plain values only.  The transport
//! adapter converts its frames into these and serializes the results.

use vstd::prelude::*;

verus! {

/// Seconds and nanoseconds from the Unix epoch.
#[derive(Clone, Copy, PartialEq, Eq, Structural, Debug)]
pub struct Timestamp {
    pub seconds: i64,
    pub nanos: i32,
}

impl View for Timestamp {
    type V = (int, int);

    open spec fn view(&self) -> (int, int) {
        (self.seconds as int, self.nanos as int)
    }
}

/// Mathematical value of a [`ProvenanceInput`].
pub ghost struct ProvInputView {
    pub source: Seq<char>,
    pub trigger: Seq<char>,
    pub timestamp: Option<(int, int)>,
}

/// A provenance record as it arrives on the wire: the timestamp may be
/// absent, which materializes internally as `(0, 0)`.
pub struct ProvenanceInput {
    pub source: String,
    pub trigger: String,
    pub timestamp: Option<Timestamp>,
}

impl View for ProvenanceInput {
    type V = ProvInputView;

    open spec fn view(&self) -> ProvInputView {
        ProvInputView {
            source: self.source@,
            trigger: self.trigger@,
            timestamp: match self.timestamp {
                Some(t) => Some(t@),
                None => None,
            },
        }
    }
}

/// The views of a sequence of provenance inputs.
pub open spec fn prov_inputs_view(v: Seq<ProvenanceInput>) -> Seq<ProvInputView> {
    Seq::new(v.len(), |i: int| v[i]@)
}

/// Mathematical value of a [`Node`] message.
pub ghost struct NodeMsgView {
    pub id: Seq<char>,
    pub node_type: int,
    pub label: Seq<char>,
    pub hypothetical: bool,
    pub provenance: Seq<ProvInputView>,
}

/// A node as it crosses the wire.
pub struct Node {
    pub id: String,
    /// The wire code of the node type.
    pub node_type: i32,
    pub label: String,
    pub hypothetical: bool,
    pub provenance: Vec<ProvenanceInput>,
}

impl View for Node {
    type V = NodeMsgView;

    open spec fn view(&self) -> NodeMsgView {
        NodeMsgView {
            id: self.id@,
            node_type: self.node_type as int,
            label: self.label@,
            hypothetical: self.hypothetical,
            provenance: prov_inputs_view(self.provenance@),
        }
    }
}

/// Mathematical value of an [`Edge`] message.
pub ghost struct EdgeMsgView {
    pub source: Seq<char>,
    pub target: Seq<char>,
    pub edge_type: int,
    pub provenance: Seq<ProvInputView>,
}

/// An edge as it crosses the wire.
pub struct Edge {
    pub source: String,
    pub target: String,
    /// The wire code of the edge type.
    pub edge_type: i32,
    pub provenance: Vec<ProvenanceInput>,
}

impl View for Edge {
    type V = EdgeMsgView;

    open spec fn view(&self) -> EdgeMsgView {
        EdgeMsgView {
            source: self.source@,
            target: self.target@,
            edge_type: self.edge_type as int,
            provenance: prov_inputs_view(self.provenance@),
        }
    }
}

/// Mathematical value of a [`HypothesisDelta`].
pub ghost struct DeltaView {
    pub nodes: Seq<NodeMsgView>,
    pub edges: Seq<EdgeMsgView>,
}

/// A batch of proposed node and edge additions.
pub struct HypothesisDelta {
    pub nodes: Vec<Node>,
    pub edges: Vec<Edge>,
}

impl View for HypothesisDelta {
    type V = DeltaView;

    open spec fn view(&self) -> DeltaView {
        DeltaView {
            nodes: Seq::new(self.nodes@.len(), |i: int| self.nodes@[i]@),
            edges: Seq::new(self.edges@.len(), |i: int| self.edges@[i]@),
        }
    }
}

/// Mathematical value of a [`MergeConflict`].
pub ghost struct ConflictView {
    pub id: Seq<char>,
    pub field: Seq<char>,
    pub existing_value: Seq<char>,
    pub proposed_value: Seq<char>,
}

/// A reported first-write-wins disagreement; not an error.
pub struct MergeConflict {
    pub id: String,
    /// The conflicted field name: `type` or `label`.
    pub field: String,
    pub existing_value: String,
    pub proposed_value: String,
}

impl View for MergeConflict {
    type V = ConflictView;

    open spec fn view(&self) -> ConflictView {
        ConflictView {
            id: self.id@,
            field: self.field@,
            existing_value: self.existing_value@,
            proposed_value: self.proposed_value@,
        }
    }
}

/// The views of a sequence of strings.
pub open spec fn strings_view(v: Seq<String>) -> Seq<Seq<char>> {
    Seq::new(v.len(), |i: int| v[i]@)
}

/// The views of a sequence of conflicts.
pub open spec fn conflicts_view(v: Seq<MergeConflict>) -> Seq<ConflictView> {
    Seq::new(v.len(), |i: int| v[i]@)
}

/// What a merge did: ids created, ids merged, conflicts found.
pub struct HypothesisMergeResult {
    pub created_ids: Vec<String>,
    pub merged_ids: Vec<String>,
    pub conflicts: Vec<MergeConflict>,
}

/// Whether an incident was created or already present.
pub struct CreateIncidentResult {
    pub incident_id: String,
    pub created: bool,
}

/// One edge named by a tombstone request.
pub struct EdgeTombstoneEntry {
    pub source: String,
    pub target: String,
    /// The wire code of the edge type.
    pub edge_type: i32,
}

/// Mathematical value of an [`EdgeTombstoneEntry`].
pub ghost struct EdgeTombstoneEntryView {
    pub source: Seq<char>,
    pub target: Seq<char>,
    pub edge_type: int,
}

impl View for EdgeTombstoneEntry {
    type V = EdgeTombstoneEntryView;

    open spec fn view(&self) -> EdgeTombstoneEntryView {
        EdgeTombstoneEntryView {
            source: self.source@,
            target: self.target@,
            edge_type: self.edge_type as int,
        }
    }
}

/// The views of a sequence of edge tombstone entries.
pub open spec fn edge_entries_view(v: Seq<EdgeTombstoneEntry>) -> Seq<EdgeTombstoneEntryView> {
    Seq::new(v.len(), |i: int| v[i]@)
}

/// An incident's tombstone sets, in ascending key order.
pub struct TombstoneSet {
    pub node_ids: Vec<String>,
    pub edge_entries: Vec<EdgeTombstoneEntry>,
}

/// An incident with its creation time and tombstones.
pub struct IncidentContext {
    pub incident_id: String,
    pub created_at: Option<Timestamp>,
    pub tombstones: Option<TombstoneSet>,
}

/// A request to tombstone nodes within one incident.
pub struct NodeTombstoneRequest {
    pub incident_id: String,
    pub node_ids: Vec<String>,
    pub provenance: Option<ProvenanceInput>,
}

/// A request to tombstone edges within one incident.
pub struct EdgeTombstoneRequest {
    pub incident_id: String,
    pub entries: Vec<EdgeTombstoneEntry>,
    pub provenance: Option<ProvenanceInput>,
}

/// How each entry of a tombstone request was classified.
pub struct TombstoneMergeResult {
    pub applied_ids: Vec<String>,
    pub already_tombstoned_ids: Vec<String>,
    pub unmatched_ids: Vec<String>,
}

/// A projection of the graph: nodes and edges in ascending key order.
pub struct CausalGraph {
    pub nodes: Vec<Node>,
    pub edges: Vec<Edge>,
}

} // verus!
