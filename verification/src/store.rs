//! The store: the global graph, the incident records, and the eight
//! operations the service exposes on them.
//!
//! The global state is three sorted maps: nodes, edges, incidents.
//! Writes merge under lattice semantics; tombstones only ever grow and
//! only mask, never mutate, the shared graph.

use crate::convert::{
    domain_edge_to_message, domain_node_to_message, edge_identifier, edge_lattice_of_msg,
    edge_to_domain, node_lattice_of_msg, node_to_domain, project_edge, project_node,
    spec_edge_identifier,
};
use crate::edge::{EdgeKey, EdgeKeyView, EdgeLattice};
use crate::edge_type::EdgeType;
use crate::errors::{ConversionError, StoreError};
use crate::maps::{
    emap_as_map, emap_contains, emap_lookup, emap_wf, lemma_emap_at, lemma_smap_at, smap_as_map,
    smap_contains, smap_index_of, smap_lookup, smap_wf, EdgeKeyMap, StringMap,
};
use crate::messages::{
    conflicts_view, edge_entries_view, strings_view, CausalGraph, ConflictView,
    CreateIncidentResult, DeltaView, Edge, EdgeMsgView, EdgeTombstoneEntry,
    EdgeTombstoneEntryView, EdgeTombstoneRequest, HypothesisDelta, HypothesisMergeResult,
    IncidentContext, MergeConflict, Node, NodeMsgView, NodeTombstoneRequest, TombstoneMergeResult,
    TombstoneSet, Timestamp,
};
use crate::node::{
    node_has_conflict_spec, node_merge, node_wf, NodeLattice, NodeView,
};
use crate::cells::CellVal;
use crate::node_type::NodeType;
use crate::prov_set::prov_seq_wf;
use crate::provenance::ProvView;
use crate::sets::{ekset_wf, sset_wf, EdgeKeySet, StringSet};
use vstd::prelude::*;

verus! {

/// Relies on `std::time::SystemTime::now` with `duration_since` from the
/// Unix epoch: the current wall-clock time as seconds and nanoseconds.
/// `Duration::subsec_nanos` is documented to stay below one billion.
#[verifier::external_body]
fn wall_clock_epoch() -> (r: (i64, i32))
    ensures
        0 <= r.1 < 1_000_000_000,
{
    let now = std::time::SystemTime::now().duration_since(std::time::UNIX_EPOCH).unwrap_or_default();
    (now.as_secs() as i64, now.subsec_nanos() as i32)
}

/// Mathematical value of an [`IncidentState`].
pub ghost struct IncidentView {
    pub created_at: (int, int),
    pub node_tombstones: Seq<Seq<char>>,
    pub edge_tombstones: Seq<EdgeKeyView>,
}

/// Per-incident record: creation time and the two tombstone sets.
pub struct IncidentState {
    pub created_at: Timestamp,
    pub node_tombstones: StringSet,
    pub edge_tombstones: EdgeKeySet,
}

impl View for IncidentState {
    type V = IncidentView;

    open spec fn view(&self) -> IncidentView {
        IncidentView {
            created_at: self.created_at@,
            node_tombstones: self.node_tombstones@,
            edge_tombstones: self.edge_tombstones@,
        }
    }
}

/// Mathematical value of the whole store: three sorted entry sequences.
pub ghost struct StoreView {
    pub nodes: Seq<(Seq<char>, NodeView)>,
    pub edges: Seq<(EdgeKeyView, Seq<ProvView>)>,
    pub incidents: Seq<(Seq<char>, IncidentView)>,
}

impl StoreView {
    /// The node map, content only.
    pub open spec fn node_map(self) -> Map<Seq<char>, NodeView> {
        smap_as_map(self.nodes)
    }

    /// The edge map, content only.
    pub open spec fn edge_map(self) -> Map<EdgeKeyView, Seq<ProvView>> {
        emap_as_map(self.edges)
    }

    /// The incident map, content only.
    pub open spec fn incident_map(self) -> Map<Seq<char>, IncidentView> {
        smap_as_map(self.incidents)
    }
}

/// The in-memory store: the global graph and the incident records.
pub struct InMemoryStore {
    nodes: StringMap<NodeLattice>,
    edges: EdgeKeyMap<EdgeLattice>,
    incidents: StringMap<IncidentState>,
}

impl View for InMemoryStore {
    type V = StoreView;

    closed spec fn view(&self) -> StoreView {
        StoreView { nodes: self.nodes@, edges: self.edges@, incidents: self.incidents@ }
    }
}

/// The edge tombstone wire entries a sorted key set projects to.
pub open spec fn project_edge_tombstones(s: Seq<EdgeKeyView>) -> Seq<EdgeTombstoneEntryView> {
    Seq::new(
        s.len(),
        |i: int|
            EdgeTombstoneEntryView {
                source: s[i].source,
                target: s[i].target,
                edge_type: s[i].edge_type.spec_code() as int,
            },
    )
}

/// The wire nodes a node entry sequence projects to, in order.
pub open spec fn project_all_nodes(nodes: Seq<(Seq<char>, NodeView)>) -> Seq<NodeMsgView> {
    Seq::new(nodes.len(), |i: int| project_node(nodes[i].0, nodes[i].1))
}

/// The wire edges an edge entry sequence projects to, in order.
pub open spec fn project_all_edges(edges: Seq<(EdgeKeyView, Seq<ProvView>)>) -> Seq<EdgeMsgView> {
    Seq::new(edges.len(), |i: int| project_edge(edges[i].0, edges[i].1))
}

/// Accumulated effect of applying a delta: the graph maps and the
/// insertion-ordered result lists.  A conversion failure stops all
/// further processing but keeps what was already applied.
pub ghost struct ApplyState {
    pub nodes: Map<Seq<char>, NodeView>,
    pub edges: Map<EdgeKeyView, Seq<ProvView>>,
    pub created: Seq<Seq<char>>,
    pub merged: Seq<Seq<char>>,
    pub conflicts: Seq<ConflictView>,
    pub error: Option<ConversionError>,
}

/// The string form of a first-write-wins type cell: the display name of a
/// held value, else empty.
pub open spec fn display_of_type_cell(c: CellVal<NodeType>) -> Seq<char> {
    match c {
        CellVal::Value(t) => t.spec_display_name(),
        _ => Seq::empty(),
    }
}

/// The string form of a first-write-wins label cell: the held label, else
/// empty.
pub open spec fn display_of_label_cell(c: CellVal<Seq<char>>) -> Seq<char> {
    match c {
        CellVal::Value(l) => l,
        _ => Seq::empty(),
    }
}

/// The conflict record for a rejected node merge: the conflicted field
/// (type before label) and the string form of the existing value.  The
/// proposed value is reported empty.
pub open spec fn conflict_report(
    id: Seq<char>,
    existing: NodeView,
    candidate: NodeView,
) -> ConflictView {
    if candidate.node_type is Conflict {
        ConflictView {
            id: id,
            field: "type"@,
            existing_value: display_of_type_cell(existing.node_type),
            proposed_value: Seq::empty(),
        }
    } else {
        ConflictView {
            id: id,
            field: "label"@,
            existing_value: display_of_label_cell(existing.label),
            proposed_value: Seq::empty(),
        }
    }
}

/// One proposed node applied to the accumulated state: create a missing
/// id, merge into a present one, or report (and do not persist) a
/// conflict.
pub open spec fn node_apply_step(st: ApplyState, m: NodeMsgView) -> ApplyState {
    if st.error is Some {
        st
    } else {
        match NodeType::spec_of_code(m.node_type) {
            None => ApplyState {
                error: Some(ConversionError::InvalidNodeType(m.node_type as i32)),
                ..st
            },
            Some(t) => {
                let nv = node_lattice_of_msg(m, t);
                if !st.nodes.dom().contains(m.id) {
                    ApplyState { nodes: st.nodes.insert(m.id, nv), created: st.created.push(m.id), ..st }
                } else {
                    let cand = node_merge(st.nodes[m.id], nv);
                    if node_has_conflict_spec(cand) {
                        ApplyState {
                            conflicts: st.conflicts.push(conflict_report(m.id, st.nodes[m.id], cand)),
                            ..st
                        }
                    } else {
                        ApplyState { nodes: st.nodes.insert(m.id, cand), merged: st.merged.push(m.id), ..st }
                    }
                }
            },
        }
    }
}

/// All proposed nodes applied in order.
pub open spec fn node_apply_fold(st: ApplyState, msgs: Seq<NodeMsgView>) -> ApplyState
    decreases msgs.len(),
{
    if msgs.len() == 0 {
        st
    } else {
        node_apply_fold(node_apply_step(st, msgs[0]), msgs.drop_first())
    }
}

/// One proposed edge applied to the accumulated state; edges have no
/// first-write-wins fields and cannot conflict.
pub open spec fn edge_apply_step(st: ApplyState, m: EdgeMsgView) -> ApplyState {
    if st.error is Some {
        st
    } else {
        match EdgeType::spec_of_code(m.edge_type) {
            None => ApplyState {
                error: Some(ConversionError::InvalidEdgeType(m.edge_type as i32)),
                ..st
            },
            Some(t) => {
                let key = EdgeKeyView { source: m.source, target: m.target, edge_type: t };
                let ident = spec_edge_identifier(m.source, m.target, t);
                let ev = edge_lattice_of_msg(m);
                if !st.edges.dom().contains(key) {
                    ApplyState { edges: st.edges.insert(key, ev), created: st.created.push(ident), ..st }
                } else {
                    ApplyState {
                        edges: st.edges.insert(
                            key,
                            crate::prov_set::prov_union(st.edges[key], ev),
                        ),
                        merged: st.merged.push(ident),
                        ..st
                    }
                }
            },
        }
    }
}

/// All proposed edges applied in order.
pub open spec fn edge_apply_fold(st: ApplyState, msgs: Seq<EdgeMsgView>) -> ApplyState
    decreases msgs.len(),
{
    if msgs.len() == 0 {
        st
    } else {
        edge_apply_fold(edge_apply_step(st, msgs[0]), msgs.drop_first())
    }
}

/// The fresh accumulator over the given graph maps.
pub open spec fn apply_base(
    nodes: Map<Seq<char>, NodeView>,
    edges: Map<EdgeKeyView, Seq<ProvView>>,
) -> ApplyState {
    ApplyState {
        nodes: nodes,
        edges: edges,
        created: Seq::empty(),
        merged: Seq::empty(),
        conflicts: Seq::empty(),
        error: None,
    }
}

/// The fresh accumulator over a store's graph.
pub open spec fn init_apply(s: StoreView) -> ApplyState {
    apply_base(s.node_map(), s.edge_map())
}

/// What one delta does to the given graph maps: every node in order,
/// then every edge.
pub open spec fn apply_delta_maps(
    nodes: Map<Seq<char>, NodeView>,
    edges: Map<EdgeKeyView, Seq<ProvView>>,
    d: DeltaView,
) -> ApplyState {
    edge_apply_fold(node_apply_fold(apply_base(nodes, edges), d.nodes), d.edges)
}

/// What one delta does to a store.
pub open spec fn apply_delta(s: StoreView, d: DeltaView) -> ApplyState {
    apply_delta_maps(s.node_map(), s.edge_map(), d)
}

/// Appending one node to the fold is one step.
pub proof fn lemma_node_fold_push(st: ApplyState, msgs: Seq<NodeMsgView>, m: NodeMsgView)
    ensures
        node_apply_fold(st, msgs.push(m)) == node_apply_step(node_apply_fold(st, msgs), m),
    decreases msgs.len(),
{
    if msgs.len() == 0 {
        assert(msgs.push(m)[0] == m);
        assert(msgs.push(m).drop_first() =~= Seq::<NodeMsgView>::empty());
        assert(node_apply_fold(st, msgs.push(m)) == node_apply_fold(
            node_apply_step(st, m),
            Seq::<NodeMsgView>::empty(),
        ));
        assert(node_apply_fold(st, msgs) == st);
    } else {
        assert(msgs.push(m)[0] == msgs[0]);
        assert(msgs.push(m).drop_first() =~= msgs.drop_first().push(m));
        lemma_node_fold_push(node_apply_step(st, msgs[0]), msgs.drop_first(), m);
        assert(node_apply_fold(st, msgs.push(m)) == node_apply_fold(
            node_apply_step(st, msgs[0]),
            msgs.drop_first().push(m),
        ));
        assert(node_apply_fold(st, msgs) == node_apply_fold(
            node_apply_step(st, msgs[0]),
            msgs.drop_first(),
        ));
    }
}

/// Appending one edge to the fold is one step.
pub proof fn lemma_edge_fold_push(st: ApplyState, msgs: Seq<EdgeMsgView>, m: EdgeMsgView)
    ensures
        edge_apply_fold(st, msgs.push(m)) == edge_apply_step(edge_apply_fold(st, msgs), m),
    decreases msgs.len(),
{
    if msgs.len() == 0 {
        assert(msgs.push(m)[0] == m);
        assert(msgs.push(m).drop_first() =~= Seq::<EdgeMsgView>::empty());
        assert(edge_apply_fold(st, msgs.push(m)) == edge_apply_fold(
            edge_apply_step(st, m),
            Seq::<EdgeMsgView>::empty(),
        ));
        assert(edge_apply_fold(st, msgs) == st);
    } else {
        assert(msgs.push(m)[0] == msgs[0]);
        assert(msgs.push(m).drop_first() =~= msgs.drop_first().push(m));
        lemma_edge_fold_push(edge_apply_step(st, msgs[0]), msgs.drop_first(), m);
        assert(edge_apply_fold(st, msgs.push(m)) == edge_apply_fold(
            edge_apply_step(st, msgs[0]),
            msgs.drop_first().push(m),
        ));
        assert(edge_apply_fold(st, msgs) == edge_apply_fold(
            edge_apply_step(st, msgs[0]),
            msgs.drop_first(),
        ));
    }
}

/// A failed state absorbs every further node.
pub proof fn lemma_node_fold_error(st: ApplyState, msgs: Seq<NodeMsgView>)
    requires
        st.error is Some,
    ensures
        node_apply_fold(st, msgs) == st,
    decreases msgs.len(),
{
    if msgs.len() != 0 {
        lemma_node_fold_error(st, msgs.drop_first());
    }
}

/// A failed state absorbs every further edge.
pub proof fn lemma_edge_fold_error(st: ApplyState, msgs: Seq<EdgeMsgView>)
    requires
        st.error is Some,
    ensures
        edge_apply_fold(st, msgs) == st,
    decreases msgs.len(),
{
    if msgs.len() != 0 {
        lemma_edge_fold_error(st, msgs.drop_first());
    }
}

/// Folding a concatenation folds its parts in turn.
pub proof fn lemma_node_fold_split(st: ApplyState, a: Seq<NodeMsgView>, b: Seq<NodeMsgView>)
    ensures
        node_apply_fold(st, a + b) == node_apply_fold(node_apply_fold(st, a), b),
    decreases a.len(),
{
    if a.len() == 0 {
        assert(a + b =~= b);
    } else {
        assert((a + b)[0] == a[0]);
        assert((a + b).drop_first() =~= a.drop_first() + b);
        lemma_node_fold_split(node_apply_step(st, a[0]), a.drop_first(), b);
    }
}

/// Folding a concatenation of edges folds its parts in turn.
pub proof fn lemma_edge_fold_split(st: ApplyState, a: Seq<EdgeMsgView>, b: Seq<EdgeMsgView>)
    ensures
        edge_apply_fold(st, a + b) == edge_apply_fold(edge_apply_fold(st, a), b),
    decreases a.len(),
{
    if a.len() == 0 {
        assert(a + b =~= b);
    } else {
        assert((a + b)[0] == a[0]);
        assert((a + b).drop_first() =~= a.drop_first() + b);
        lemma_edge_fold_split(edge_apply_step(st, a[0]), a.drop_first(), b);
    }
}

/// Accumulated effect of a node tombstone request on one incident.
pub ghost struct NodeTombFold {
    pub tombs: Set<Seq<char>>,
    pub applied: Seq<Seq<char>>,
    pub already: Seq<Seq<char>>,
    pub unmatched: Seq<Seq<char>>,
}

/// Classify one node id: already tombstoned, applied (the node exists),
/// or unmatched (kept to mask a future insert).
pub open spec fn node_tomb_step(
    nodes: Set<Seq<char>>,
    st: NodeTombFold,
    id: Seq<char>,
) -> NodeTombFold {
    if st.tombs.contains(id) {
        NodeTombFold { already: st.already.push(id), ..st }
    } else if nodes.contains(id) {
        NodeTombFold { tombs: st.tombs.insert(id), applied: st.applied.push(id), ..st }
    } else {
        NodeTombFold { tombs: st.tombs.insert(id), unmatched: st.unmatched.push(id), ..st }
    }
}

/// Classify every requested node id in order.
pub open spec fn node_tomb_fold(
    nodes: Set<Seq<char>>,
    st: NodeTombFold,
    ids: Seq<Seq<char>>,
) -> NodeTombFold
    decreases ids.len(),
{
    if ids.len() == 0 {
        st
    } else {
        node_tomb_fold(nodes, node_tomb_step(nodes, st, ids[0]), ids.drop_first())
    }
}

/// Appending one id to the fold is one step.
pub proof fn lemma_node_tomb_fold_push(
    nodes: Set<Seq<char>>,
    st: NodeTombFold,
    ids: Seq<Seq<char>>,
    id: Seq<char>,
)
    ensures
        node_tomb_fold(nodes, st, ids.push(id)) == node_tomb_step(
            nodes,
            node_tomb_fold(nodes, st, ids),
            id,
        ),
    decreases ids.len(),
{
    if ids.len() == 0 {
        assert(ids.push(id)[0] == id);
        assert(ids.push(id).drop_first() =~= Seq::<Seq<char>>::empty());
        assert(node_tomb_fold(nodes, st, ids.push(id)) == node_tomb_fold(
            nodes,
            node_tomb_step(nodes, st, id),
            Seq::<Seq<char>>::empty(),
        ));
        assert(node_tomb_fold(nodes, st, ids) == st);
    } else {
        assert(ids.push(id)[0] == ids[0]);
        assert(ids.push(id).drop_first() =~= ids.drop_first().push(id));
        lemma_node_tomb_fold_push(nodes, node_tomb_step(nodes, st, ids[0]), ids.drop_first(), id);
        assert(node_tomb_fold(nodes, st, ids.push(id)) == node_tomb_fold(
            nodes,
            node_tomb_step(nodes, st, ids[0]),
            ids.drop_first().push(id),
        ));
        assert(node_tomb_fold(nodes, st, ids) == node_tomb_fold(
            nodes,
            node_tomb_step(nodes, st, ids[0]),
            ids.drop_first(),
        ));
    }
}

/// Tombstone sets only grow: every member survives the fold.
pub proof fn lemma_node_tomb_fold_grows(
    nodes: Set<Seq<char>>,
    st: NodeTombFold,
    ids: Seq<Seq<char>>,
)
    ensures
        forall|q: Seq<char>|
            st.tombs.contains(q) ==> #[trigger] node_tomb_fold(nodes, st, ids).tombs.contains(q),
    decreases ids.len(),
{
    if ids.len() != 0 {
        let st1 = node_tomb_step(nodes, st, ids[0]);
        lemma_node_tomb_fold_grows(nodes, st1, ids.drop_first());
        assert(node_tomb_fold(nodes, st, ids) == node_tomb_fold(nodes, st1, ids.drop_first()));
        assert forall|q: Seq<char>| st.tombs.contains(q) implies #[trigger] node_tomb_fold(
            nodes,
            st,
            ids,
        ).tombs.contains(q) by {
            assert(st1.tombs.contains(q));
            assert(node_tomb_fold(nodes, st1, ids.drop_first()).tombs.contains(q));
        }
    }
}

/// Accumulated effect of an edge tombstone request on one incident.  An
/// undecodable type code stops all further processing but keeps what was
/// already applied.
pub ghost struct EdgeTombFold {
    pub tombs: Set<EdgeKeyView>,
    pub applied: Seq<Seq<char>>,
    pub already: Seq<Seq<char>>,
    pub unmatched: Seq<Seq<char>>,
    pub error: Option<ConversionError>,
}

/// Classify one requested edge entry.
pub open spec fn edge_tomb_step(
    edges: Set<EdgeKeyView>,
    st: EdgeTombFold,
    e: EdgeTombstoneEntryView,
) -> EdgeTombFold {
    if st.error is Some {
        st
    } else {
        match EdgeType::spec_of_code(e.edge_type) {
            None => EdgeTombFold {
                error: Some(ConversionError::InvalidEdgeType(e.edge_type as i32)),
                ..st
            },
            Some(t) => {
                let key = EdgeKeyView { source: e.source, target: e.target, edge_type: t };
                let ident = spec_edge_identifier(e.source, e.target, t);
                if st.tombs.contains(key) {
                    EdgeTombFold { already: st.already.push(ident), ..st }
                } else if edges.contains(key) {
                    EdgeTombFold { tombs: st.tombs.insert(key), applied: st.applied.push(ident), ..st }
                } else {
                    EdgeTombFold {
                        tombs: st.tombs.insert(key),
                        unmatched: st.unmatched.push(ident),
                        ..st
                    }
                }
            },
        }
    }
}

/// Classify every requested edge entry in order.
pub open spec fn edge_tomb_fold(
    edges: Set<EdgeKeyView>,
    st: EdgeTombFold,
    entries: Seq<EdgeTombstoneEntryView>,
) -> EdgeTombFold
    decreases entries.len(),
{
    if entries.len() == 0 {
        st
    } else {
        edge_tomb_fold(edges, edge_tomb_step(edges, st, entries[0]), entries.drop_first())
    }
}

/// Appending one entry to the fold is one step.
pub proof fn lemma_edge_tomb_fold_push(
    edges: Set<EdgeKeyView>,
    st: EdgeTombFold,
    entries: Seq<EdgeTombstoneEntryView>,
    e: EdgeTombstoneEntryView,
)
    ensures
        edge_tomb_fold(edges, st, entries.push(e)) == edge_tomb_step(
            edges,
            edge_tomb_fold(edges, st, entries),
            e,
        ),
    decreases entries.len(),
{
    if entries.len() == 0 {
        assert(entries.push(e)[0] == e);
        assert(entries.push(e).drop_first() =~= Seq::<EdgeTombstoneEntryView>::empty());
        assert(edge_tomb_fold(edges, st, entries.push(e)) == edge_tomb_fold(
            edges,
            edge_tomb_step(edges, st, e),
            Seq::<EdgeTombstoneEntryView>::empty(),
        ));
        assert(edge_tomb_fold(edges, st, entries) == st);
    } else {
        assert(entries.push(e)[0] == entries[0]);
        assert(entries.push(e).drop_first() =~= entries.drop_first().push(e));
        lemma_edge_tomb_fold_push(
            edges,
            edge_tomb_step(edges, st, entries[0]),
            entries.drop_first(),
            e,
        );
        assert(edge_tomb_fold(edges, st, entries.push(e)) == edge_tomb_fold(
            edges,
            edge_tomb_step(edges, st, entries[0]),
            entries.drop_first().push(e),
        ));
        assert(edge_tomb_fold(edges, st, entries) == edge_tomb_fold(
            edges,
            edge_tomb_step(edges, st, entries[0]),
            entries.drop_first(),
        ));
    }
}

/// A failed state absorbs every further entry.
pub proof fn lemma_edge_tomb_fold_error(
    edges: Set<EdgeKeyView>,
    st: EdgeTombFold,
    entries: Seq<EdgeTombstoneEntryView>,
)
    requires
        st.error is Some,
    ensures
        edge_tomb_fold(edges, st, entries) == st,
    decreases entries.len(),
{
    if entries.len() != 0 {
        lemma_edge_tomb_fold_error(edges, st, entries.drop_first());
    }
}

/// Folding a concatenation of entries folds its parts in turn.
pub proof fn lemma_edge_tomb_fold_split(
    edges: Set<EdgeKeyView>,
    st: EdgeTombFold,
    a: Seq<EdgeTombstoneEntryView>,
    b: Seq<EdgeTombstoneEntryView>,
)
    ensures
        edge_tomb_fold(edges, st, a + b) == edge_tomb_fold(edges, edge_tomb_fold(edges, st, a), b),
    decreases a.len(),
{
    if a.len() == 0 {
        assert(a + b =~= b);
    } else {
        assert((a + b)[0] == a[0]);
        assert((a + b).drop_first() =~= a.drop_first() + b);
        lemma_edge_tomb_fold_split(edges, edge_tomb_step(edges, st, a[0]), a.drop_first(), b);
    }
}

/// Tombstone sets only grow: every member survives the fold.
pub proof fn lemma_edge_tomb_fold_grows(
    edges: Set<EdgeKeyView>,
    st: EdgeTombFold,
    entries: Seq<EdgeTombstoneEntryView>,
)
    ensures
        forall|q: EdgeKeyView|
            st.tombs.contains(q) ==> #[trigger] edge_tomb_fold(
                edges,
                st,
                entries,
            ).tombs.contains(q),
    decreases entries.len(),
{
    if entries.len() != 0 {
        let st1 = edge_tomb_step(edges, st, entries[0]);
        lemma_edge_tomb_fold_grows(edges, st1, entries.drop_first());
        assert(edge_tomb_fold(edges, st, entries) == edge_tomb_fold(
            edges,
            st1,
            entries.drop_first(),
        ));
        assert forall|q: EdgeKeyView| st.tombs.contains(q) implies #[trigger] edge_tomb_fold(
            edges,
            st,
            entries,
        ).tombs.contains(q) by {
            assert(st1.tombs.contains(q));
            assert(edge_tomb_fold(edges, st1, entries.drop_first()).tombs.contains(q));
        }
    }
}

/// The live projection of the nodes under an incident's tombstones: a
/// node is included iff its id is not tombstoned.
pub open spec fn live_nodes(
    nodes: Seq<(Seq<char>, NodeView)>,
    tombs: Seq<Seq<char>>,
) -> Seq<NodeMsgView>
    decreases nodes.len(),
{
    if nodes.len() == 0 {
        Seq::empty()
    } else {
        let rest = live_nodes(nodes.drop_first(), tombs);
        if tombs.contains(nodes[0].0) {
            rest
        } else {
            seq![project_node(nodes[0].0, nodes[0].1)] + rest
        }
    }
}

/// Whether an edge survives an incident's tombstones: its key is not
/// tombstoned and neither endpoint is a tombstoned node.
pub open spec fn edge_live(
    key: EdgeKeyView,
    edge_tombs: Seq<EdgeKeyView>,
    node_tombs: Seq<Seq<char>>,
) -> bool {
    &&& !edge_tombs.contains(key)
    &&& !node_tombs.contains(key.source)
    &&& !node_tombs.contains(key.target)
}

/// The live projection of the edges under an incident's tombstones.
pub open spec fn live_edges(
    edges: Seq<(EdgeKeyView, Seq<ProvView>)>,
    edge_tombs: Seq<EdgeKeyView>,
    node_tombs: Seq<Seq<char>>,
) -> Seq<EdgeMsgView>
    decreases edges.len(),
{
    if edges.len() == 0 {
        Seq::empty()
    } else {
        let rest = live_edges(edges.drop_first(), edge_tombs, node_tombs);
        if edge_live(edges[0].0, edge_tombs, node_tombs) {
            seq![project_edge(edges[0].0, edges[0].1)] + rest
        } else {
            rest
        }
    }
}

/// Appending one node to the projection filters just that node.
pub proof fn lemma_live_nodes_push(
    nodes: Seq<(Seq<char>, NodeView)>,
    tombs: Seq<Seq<char>>,
    x: (Seq<char>, NodeView),
)
    ensures
        live_nodes(nodes.push(x), tombs) == if tombs.contains(x.0) {
            live_nodes(nodes, tombs)
        } else {
            live_nodes(nodes, tombs).push(project_node(x.0, x.1))
        },
    decreases nodes.len(),
{
    if nodes.len() == 0 {
        assert(nodes.push(x)[0] == x);
        assert(nodes.push(x).drop_first() =~= Seq::<(Seq<char>, NodeView)>::empty());
        assert(live_nodes(Seq::<(Seq<char>, NodeView)>::empty(), tombs) == Seq::<
            NodeMsgView,
        >::empty());
        assert(live_nodes(nodes, tombs) == Seq::<NodeMsgView>::empty());
        if !tombs.contains(x.0) {
            assert(seq![project_node(x.0, x.1)] + Seq::<NodeMsgView>::empty() =~= Seq::<
                NodeMsgView,
            >::empty().push(project_node(x.0, x.1)));
        }
    } else {
        assert(nodes.push(x)[0] == nodes[0]);
        assert(nodes.push(x).drop_first() =~= nodes.drop_first().push(x));
        lemma_live_nodes_push(nodes.drop_first(), tombs, x);
        assert(live_nodes(nodes.push(x), tombs) == if tombs.contains(nodes[0].0) {
            live_nodes(nodes.drop_first().push(x), tombs)
        } else {
            seq![project_node(nodes[0].0, nodes[0].1)] + live_nodes(
                nodes.drop_first().push(x),
                tombs,
            )
        });
        if !tombs.contains(x.0) && !tombs.contains(nodes[0].0) {
            assert(seq![project_node(nodes[0].0, nodes[0].1)] + live_nodes(
                nodes.drop_first(),
                tombs,
            ).push(project_node(x.0, x.1)) =~= (seq![project_node(nodes[0].0, nodes[0].1)]
                + live_nodes(nodes.drop_first(), tombs)).push(project_node(x.0, x.1)));
        }
    }
}

/// Appending one edge to the projection filters just that edge.
pub proof fn lemma_live_edges_push(
    edges: Seq<(EdgeKeyView, Seq<ProvView>)>,
    edge_tombs: Seq<EdgeKeyView>,
    node_tombs: Seq<Seq<char>>,
    x: (EdgeKeyView, Seq<ProvView>),
)
    ensures
        live_edges(edges.push(x), edge_tombs, node_tombs) == if edge_live(
            x.0,
            edge_tombs,
            node_tombs,
        ) {
            live_edges(edges, edge_tombs, node_tombs).push(project_edge(x.0, x.1))
        } else {
            live_edges(edges, edge_tombs, node_tombs)
        },
    decreases edges.len(),
{
    if edges.len() == 0 {
        assert(edges.push(x)[0] == x);
        assert(edges.push(x).drop_first() =~= Seq::<(EdgeKeyView, Seq<ProvView>)>::empty());
        assert(live_edges(Seq::<(EdgeKeyView, Seq<ProvView>)>::empty(), edge_tombs, node_tombs)
            == Seq::<EdgeMsgView>::empty());
        assert(live_edges(edges, edge_tombs, node_tombs) == Seq::<EdgeMsgView>::empty());
        if edge_live(x.0, edge_tombs, node_tombs) {
            assert(seq![project_edge(x.0, x.1)] + Seq::<EdgeMsgView>::empty() =~= Seq::<
                EdgeMsgView,
            >::empty().push(project_edge(x.0, x.1)));
        }
    } else {
        assert(edges.push(x)[0] == edges[0]);
        assert(edges.push(x).drop_first() =~= edges.drop_first().push(x));
        lemma_live_edges_push(edges.drop_first(), edge_tombs, node_tombs, x);
        assert(live_edges(edges.push(x), edge_tombs, node_tombs) == if edge_live(
            edges[0].0,
            edge_tombs,
            node_tombs,
        ) {
            seq![project_edge(edges[0].0, edges[0].1)] + live_edges(
                edges.drop_first().push(x),
                edge_tombs,
                node_tombs,
            )
        } else {
            live_edges(edges.drop_first().push(x), edge_tombs, node_tombs)
        });
        if edge_live(x.0, edge_tombs, node_tombs) && edge_live(
            edges[0].0,
            edge_tombs,
            node_tombs,
        ) {
            assert(seq![project_edge(edges[0].0, edges[0].1)] + live_edges(
                edges.drop_first(),
                edge_tombs,
                node_tombs,
            ).push(project_edge(x.0, x.1)) =~= (seq![project_edge(edges[0].0, edges[0].1)]
                + live_edges(edges.drop_first(), edge_tombs, node_tombs)).push(
                project_edge(x.0, x.1),
            ));
        }
    }
}

/// The live view never shows a tombstoned node.
pub proof fn lemma_live_nodes_masked(nodes: Seq<(Seq<char>, NodeView)>, tombs: Seq<Seq<char>>)
    ensures
        forall|k: int|
            0 <= k < live_nodes(nodes, tombs).len() ==> !tombs.contains(
                #[trigger] live_nodes(nodes, tombs)[k].id,
            ),
    decreases nodes.len(),
{
    if nodes.len() != 0 {
        lemma_live_nodes_masked(nodes.drop_first(), tombs);
        let l = live_nodes(nodes, tombs);
        let rest = live_nodes(nodes.drop_first(), tombs);
        assert forall|k: int| 0 <= k < l.len() implies !tombs.contains(#[trigger] l[k].id) by {
            if tombs.contains(nodes[0].0) {
                assert(l[k] == rest[k]);
            } else if k == 0 {
                assert(l[0] == project_node(nodes[0].0, nodes[0].1));
            } else {
                assert(l[k] == rest[k - 1]);
            }
        }
    }
}

/// The live view never shows a tombstoned edge, nor an edge incident on a
/// tombstoned node.
pub proof fn lemma_live_edges_masked(
    edges: Seq<(EdgeKeyView, Seq<ProvView>)>,
    edge_tombs: Seq<EdgeKeyView>,
    node_tombs: Seq<Seq<char>>,
)
    ensures
        forall|k: int|
            0 <= k < live_edges(edges, edge_tombs, node_tombs).len()
                ==> !node_tombs.contains(
                #[trigger] live_edges(edges, edge_tombs, node_tombs)[k].source,
            ) && !node_tombs.contains(live_edges(edges, edge_tombs, node_tombs)[k].target),
    decreases edges.len(),
{
    if edges.len() != 0 {
        lemma_live_edges_masked(edges.drop_first(), edge_tombs, node_tombs);
        let l = live_edges(edges, edge_tombs, node_tombs);
        let rest = live_edges(edges.drop_first(), edge_tombs, node_tombs);
        assert forall|k: int|
            0 <= k < l.len() implies !node_tombs.contains(#[trigger] l[k].source)
                && !node_tombs.contains(l[k].target) by {
            if !edge_live(edges[0].0, edge_tombs, node_tombs) {
                assert(l[k] == rest[k]);
            } else if k == 0 {
                assert(l[0] == project_edge(edges[0].0, edges[0].1));
            } else {
                assert(l[k] == rest[k - 1]);
            }
        }
    }
}

/// Every stored node bundle is well formed and free of the conflict
/// marker; the engine never persists a conflicted cell.
pub open spec fn node_map_healthy(m: Map<Seq<char>, NodeView>) -> bool {
    forall|id: Seq<char>|
        #[trigger] m.dom().contains(id) ==> node_wf(m[id]) && !node_has_conflict_spec(m[id])
}

/// Every stored edge provenance set is well formed.
pub open spec fn edge_map_healthy(m: Map<EdgeKeyView, Seq<ProvView>>) -> bool {
    forall|k: EdgeKeyView| #[trigger] m.dom().contains(k) ==> prov_seq_wf(m[k])
}

/// A node fold keeps a healthy node map healthy, and leaves the edges
/// alone: a created bundle is well formed and unconflicted, a merged
/// candidate is persisted only after the conflict check.
pub proof fn lemma_node_fold_preserves_health(st: ApplyState, msgs: Seq<NodeMsgView>)
    ensures
        node_apply_fold(st, msgs).edges == st.edges,
        node_map_healthy(st.nodes) ==> node_map_healthy(node_apply_fold(st, msgs).nodes),
    decreases msgs.len(),
{
    if msgs.len() != 0 {
        let m = msgs[0];
        let st1 = node_apply_step(st, m);
        assert(node_map_healthy(st.nodes) ==> node_map_healthy(st1.nodes)) by {
            if node_map_healthy(st.nodes) && st.error is None && NodeType::spec_of_code(
                m.node_type,
            ) is Some {
                let nv = node_lattice_of_msg(m, NodeType::spec_of_code(m.node_type)->0);
                crate::prov_set::lemma_prov_from_seq_wf(
                    crate::convert::prov_records_of_inputs(m.provenance),
                );
                assert(node_wf(nv));
                assert(!node_has_conflict_spec(nv));
                if st.nodes.dom().contains(m.id) {
                    crate::prov_set::lemma_prov_union_props(
                        st.nodes[m.id].provenance,
                        nv.provenance,
                    );
                }
                assert forall|id: Seq<char>| #[trigger]
                    st1.nodes.dom().contains(id) implies node_wf(st1.nodes[id])
                    && !node_has_conflict_spec(st1.nodes[id]) by {
                    if id != m.id {
                        assert(st.nodes.dom().contains(id));
                        assert(st1.nodes[id] == st.nodes[id]);
                    }
                }
            }
        }
        lemma_node_fold_preserves_health(st1, msgs.drop_first());
        assert(node_apply_fold(st, msgs) == node_apply_fold(st1, msgs.drop_first()));
    }
}

/// An edge fold keeps a healthy edge map healthy, and leaves the nodes
/// alone: a created provenance set is well formed, and a merged one is a
/// union of well-formed sets.
pub proof fn lemma_edge_fold_preserves_health(st: ApplyState, msgs: Seq<EdgeMsgView>)
    ensures
        edge_apply_fold(st, msgs).nodes == st.nodes,
        edge_map_healthy(st.edges) ==> edge_map_healthy(edge_apply_fold(st, msgs).edges),
    decreases msgs.len(),
{
    if msgs.len() != 0 {
        let m = msgs[0];
        let st1 = edge_apply_step(st, m);
        assert(edge_map_healthy(st.edges) ==> edge_map_healthy(st1.edges)) by {
            if edge_map_healthy(st.edges) && st.error is None && EdgeType::spec_of_code(
                m.edge_type,
            ) is Some {
                let key = EdgeKeyView {
                    source: m.source,
                    target: m.target,
                    edge_type: EdgeType::spec_of_code(m.edge_type)->0,
                };
                let ev = edge_lattice_of_msg(m);
                crate::prov_set::lemma_prov_from_seq_wf(
                    crate::convert::prov_records_of_inputs(m.provenance),
                );
                assert(prov_seq_wf(ev));
                if st.edges.dom().contains(key) {
                    crate::prov_set::lemma_prov_union_props(st.edges[key], ev);
                }
                assert forall|k: EdgeKeyView| #[trigger]
                    st1.edges.dom().contains(k) implies prov_seq_wf(st1.edges[k]) by {
                    if k != key {
                        assert(st.edges.dom().contains(k));
                        assert(st1.edges[k] == st.edges[k]);
                    }
                }
            }
        }
        lemma_edge_fold_preserves_health(st1, msgs.drop_first());
        assert(edge_apply_fold(st, msgs) == edge_apply_fold(st1, msgs.drop_first()));
    }
}

/// Build the wire tombstone sets of an incident, ascending.
fn tombstone_set_of(inc: &IncidentState) -> (r: TombstoneSet)
    ensures
        strings_view(r.node_ids@) == inc@.node_tombstones,
        edge_entries_view(r.edge_entries@) == project_edge_tombstones(inc@.edge_tombstones),
{
    let mut node_ids: Vec<String> = Vec::new();
    let n = inc.node_tombstones.len();
    let mut i: usize = 0;
    while i < n
        invariant
            n == inc@.node_tombstones.len(),
            i <= n,
            node_ids@.len() == i,
            forall|k: int| 0 <= k < i ==> node_ids@[k]@ == inc@.node_tombstones[k],
        decreases n - i,
    {
        node_ids.push(inc.node_tombstones.get(i).clone());
        i = i + 1;
    }
    let mut edge_entries: Vec<EdgeTombstoneEntry> = Vec::new();
    let m = inc.edge_tombstones.len();
    let mut j: usize = 0;
    while j < m
        invariant
            m == inc@.edge_tombstones.len(),
            j <= m,
            edge_entries@.len() == j,
            forall|k: int|
                0 <= k < j ==> edge_entries@[k]@ == project_edge_tombstones(
                    inc@.edge_tombstones,
                )[k],
        decreases m - j,
    {
        let key = inc.edge_tombstones.get(j);
        edge_entries.push(
            EdgeTombstoneEntry {
                source: key.source.clone(),
                target: key.target.clone(),
                edge_type: key.edge_type.code(),
            },
        );
        j = j + 1;
    }
    let r = TombstoneSet { node_ids, edge_entries };
    proof {
        assert(strings_view(r.node_ids@) =~= inc@.node_tombstones);
        assert(edge_entries_view(r.edge_entries@) =~= project_edge_tombstones(
            inc@.edge_tombstones,
        ));
    }
    r
}

impl InMemoryStore {
    /// An empty store.
    pub fn new() -> (r: Self)
        ensures
            r@.nodes == Seq::<(Seq<char>, NodeView)>::empty(),
            r@.edges == Seq::<(EdgeKeyView, Seq<ProvView>)>::empty(),
            r@.incidents == Seq::<(Seq<char>, IncidentView)>::empty(),
            node_map_healthy(r@.node_map()),
            edge_map_healthy(r@.edge_map()),
    {
        let r = InMemoryStore {
            nodes: StringMap::new(),
            edges: EdgeKeyMap::new(),
            incidents: StringMap::new(),
        };
        proof {
            assert forall|id: Seq<char>| #[trigger]
                r@.node_map().dom().contains(id) implies node_wf(r@.node_map()[id])
                && !node_has_conflict_spec(r@.node_map()[id]) by {
                assert(smap_contains(r@.nodes, id));
            }
            assert forall|k: EdgeKeyView| #[trigger]
                r@.edge_map().dom().contains(k) implies prov_seq_wf(r@.edge_map()[k]) by {
                assert(emap_contains(r@.edges, k));
            }
        }
        r
    }

    /// Create an incident if it does not exist; idempotent.  The graph is
    /// never touched.  A fresh incident starts with the current wall-clock
    /// time and empty tombstone sets.
    pub fn create_incident(&mut self, incident_id: &str) -> (r: Result<
        CreateIncidentResult,
        StoreError,
    >)
        ensures
            final(self)@.nodes == old(self)@.nodes,
            final(self)@.edges == old(self)@.edges,
            smap_wf(final(self)@.nodes),
            emap_wf(final(self)@.edges),
            r is Ok,
            match r {
                Ok(res) => {
                    &&& res.incident_id@ == incident_id@
                    &&& res.created == !smap_contains(old(self)@.incidents, incident_id@)
                    &&& if smap_contains(old(self)@.incidents, incident_id@) {
                        final(self)@ == old(self)@
                    } else {
                        exists|t: (int, int)|
                            0 <= t.1 < 1_000_000_000 && final(self)@.incident_map()
                                == old(self)@.incident_map().insert(
                                incident_id@,
                                IncidentView {
                                    created_at: t,
                                    node_tombstones: Seq::empty(),
                                    edge_tombstones: Seq::empty(),
                                },
                            )
                    }
                },
                Err(_) => false,
            },
    {
        proof {
            use_type_invariant(&self.nodes);
            use_type_invariant(&self.edges);
        }
        let created = if self.incidents.contains_key(incident_id) {
            false
        } else {
            let now = wall_clock_epoch();
            let state = IncidentState {
                created_at: Timestamp { seconds: now.0, nanos: now.1 },
                node_tombstones: StringSet::new(),
                edge_tombstones: EdgeKeySet::new(),
            };
            let ghost t: (int, int) = (now.0 as int, now.1 as int);
            self.incidents.insert(incident_id.to_owned(), state);
            proof {
                assert(0 <= t.1 < 1_000_000_000 && self@.incident_map() == old(
                    self,
                )@.incident_map().insert(
                    incident_id@,
                    IncidentView {
                        created_at: t,
                        node_tombstones: Seq::empty(),
                        edge_tombstones: Seq::empty(),
                    },
                ));
            }
            true
        };
        Ok(CreateIncidentResult { incident_id: incident_id.to_owned(), created })
    }

    /// Apply one delta: every node in order, then every edge.  A node
    /// conflict is reported, not persisted, and does not stop the rest of
    /// the delta; an undecodable type code stops processing with a backend
    /// error, keeping what already applied.  Incidents are never touched.
    pub fn merge_hypothesis(&mut self, delta: &HypothesisDelta) -> (r: Result<
        HypothesisMergeResult,
        StoreError,
    >)
        ensures
            final(self)@.incidents == old(self)@.incidents,
            smap_wf(final(self)@.nodes),
            emap_wf(final(self)@.edges),
            node_map_healthy(old(self)@.node_map()) ==> node_map_healthy(
                final(self)@.node_map(),
            ),
            edge_map_healthy(old(self)@.edge_map()) ==> edge_map_healthy(
                final(self)@.edge_map(),
            ),
            ({
                let a = apply_delta(old(self)@, delta@);
                &&& final(self)@.node_map() == a.nodes
                &&& final(self)@.edge_map() == a.edges
                &&& match r {
                    Ok(res) => {
                        &&& a.error is None
                        &&& strings_view(res.created_ids@) == a.created
                        &&& strings_view(res.merged_ids@) == a.merged
                        &&& conflicts_view(res.conflicts@) == a.conflicts
                    },
                    Err(e) => {
                        &&& a.error is Some
                        &&& e matches StoreError::Backend(msg) && msg@
                            == a.error->0.spec_message()
                    },
                }
            }),
    {
        let ghost s0 = self@;
        let ghost d = delta@;
        let ghost st0 = init_apply(s0);
        let mut created_ids: Vec<String> = Vec::new();
        let mut merged_ids: Vec<String> = Vec::new();
        let mut conflicts: Vec<MergeConflict> = Vec::new();
        proof {
            assert(d.nodes.take(0) =~= Seq::<NodeMsgView>::empty());
            assert(strings_view(created_ids@) =~= Seq::<Seq<char>>::empty());
            assert(strings_view(merged_ids@) =~= Seq::<Seq<char>>::empty());
            assert(conflicts_view(conflicts@) =~= Seq::<ConflictView>::empty());
        }
        let n = delta.nodes.len();
        let mut i: usize = 0;
        while i < n
            invariant
                n == d.nodes.len(),
                i <= n,
                d == delta@,
                s0 == old(self)@,
                st0 == init_apply(s0),
                s0.edges == self@.edges,
                s0.incidents == self@.incidents,
                node_apply_fold(st0, d.nodes.take(i as int)) == (ApplyState {
                    nodes: self@.node_map(),
                    edges: s0.edge_map(),
                    created: strings_view(created_ids@),
                    merged: strings_view(merged_ids@),
                    conflicts: conflicts_view(conflicts@),
                    error: None,
                }),
            decreases n - i,
        {
            let ghost st_i = node_apply_fold(st0, d.nodes.take(i as int));
            let ghost m = d.nodes[i as int];
            proof {
                assert(d.nodes.take(i as int).push(m) =~= d.nodes.take(i as int + 1));
                lemma_node_fold_push(st0, d.nodes.take(i as int), m);
                assert(delta.nodes@[i as int]@ == m);
            }
            let node_msg = &delta.nodes[i];
            let node_id = node_msg.id.clone();
            match node_to_domain(node_msg) {
                Err(e) => {
                    let msg = e.message();
                    proof {
                        let st_err = node_apply_step(st_i, m);
                        assert(st_err.error is Some);
                        assert(d.nodes =~= d.nodes.take(i as int + 1) + d.nodes.skip(
                            i as int + 1,
                        ));
                        lemma_node_fold_split(
                            st0,
                            d.nodes.take(i as int + 1),
                            d.nodes.skip(i as int + 1),
                        );
                        lemma_node_fold_error(st_err, d.nodes.skip(i as int + 1));
                        lemma_edge_fold_error(st_err, d.edges);
                        use_type_invariant(&self.nodes);
                        use_type_invariant(&self.edges);
                        lemma_node_fold_preserves_health(st0, d.nodes);
                        lemma_edge_fold_preserves_health(node_apply_fold(st0, d.nodes), d.edges);
                    }
                    return Err(StoreError::Backend(msg));
                },
                Ok((id, lattice)) => {
                    proof {
                        assert(self@.node_map().dom().contains(id@) == smap_contains(
                            self@.nodes,
                            id@,
                        ));
                    }
                    let (pos, found) = self.nodes.locate(id.as_str());
                    if !found {
                        self.nodes.insert(id, lattice);
                        created_ids.push(node_id);
                        proof {
                            assert(strings_view(created_ids@) =~= st_i.created.push(m.id));
                        }
                    } else {
                        proof {
                            lemma_smap_at(self@.nodes, pos as int);
                            assert(self@.node_map()[id@] == self@.nodes[pos as int].1);
                        }
                        let existing = self.nodes.val_at(pos);
                        let mut candidate = existing.duplicate();
                        candidate.merge(lattice);
                        if candidate.has_conflict() {
                            let field_is_type = candidate.node_type.is_conflict();
                            let field = if field_is_type {
                                "type".to_owned()
                            } else {
                                "label".to_owned()
                            };
                            let existing_value = if field_is_type {
                                match self.nodes.val_at(pos).node_type.value() {
                                    Some(t) => t.display_name(),
                                    None => String::new(),
                                }
                            } else {
                                match self.nodes.val_at(pos).label.value() {
                                    Some(l) => l.clone(),
                                    None => String::new(),
                                }
                            };
                            conflicts.push(
                                MergeConflict {
                                    id: node_id,
                                    field,
                                    existing_value,
                                    proposed_value: String::new(),
                                },
                            );
                            proof {
                                assert(conflicts_view(conflicts@) =~= st_i.conflicts.push(
                                    conflict_report(m.id, st_i.nodes[m.id], candidate@),
                                ));
                            }
                        } else {
                            self.nodes.replace_at(pos, candidate);
                            merged_ids.push(node_id);
                            proof {
                                assert(strings_view(merged_ids@) =~= st_i.merged.push(m.id));
                            }
                        }
                    }
                },
            }
            i = i + 1;
        }
        proof {
            assert(d.nodes.take(n as int) =~= d.nodes);
        }
        let ghost st_n = node_apply_fold(st0, d.nodes);
        proof {
            assert(d.edges.take(0) =~= Seq::<EdgeMsgView>::empty());
        }
        let q = delta.edges.len();
        let mut j: usize = 0;
        while j < q
            invariant
                q == d.edges.len(),
                j <= q,
                d == delta@,
                s0 == old(self)@,
                st0 == init_apply(s0),
                st_n == node_apply_fold(st0, d.nodes),
                st_n.error is None,
                st_n.edges == s0.edge_map(),
                s0.incidents == self@.incidents,
                edge_apply_fold(st_n, d.edges.take(j as int)) == (ApplyState {
                    nodes: self@.node_map(),
                    edges: self@.edge_map(),
                    created: strings_view(created_ids@),
                    merged: strings_view(merged_ids@),
                    conflicts: conflicts_view(conflicts@),
                    error: None,
                }),
            decreases q - j,
        {
            let ghost st_j = edge_apply_fold(st_n, d.edges.take(j as int));
            let ghost m = d.edges[j as int];
            proof {
                assert(d.edges.take(j as int).push(m) =~= d.edges.take(j as int + 1));
                lemma_edge_fold_push(st_n, d.edges.take(j as int), m);
                assert(delta.edges@[j as int]@ == m);
            }
            let edge_msg = &delta.edges[j];
            match edge_to_domain(edge_msg) {
                Err(e) => {
                    let msg = e.message();
                    proof {
                        let st_err = edge_apply_step(st_j, m);
                        assert(st_err.error is Some);
                        assert(d.edges =~= d.edges.take(j as int + 1) + d.edges.skip(
                            j as int + 1,
                        ));
                        lemma_edge_fold_split(
                            st_n,
                            d.edges.take(j as int + 1),
                            d.edges.skip(j as int + 1),
                        );
                        lemma_edge_fold_error(st_err, d.edges.skip(j as int + 1));
                        use_type_invariant(&self.nodes);
                        use_type_invariant(&self.edges);
                        lemma_node_fold_preserves_health(st0, d.nodes);
                        lemma_edge_fold_preserves_health(node_apply_fold(st0, d.nodes), d.edges);
                    }
                    return Err(StoreError::Backend(msg));
                },
                Ok((key, lattice)) => {
                    let edge_id = edge_identifier(&key.source, &key.target, key.edge_type);
                    proof {
                        assert(self@.edge_map().dom().contains(key@) == emap_contains(
                            self@.edges,
                            key@,
                        ));
                    }
                    let (pos, found) = self.edges.locate(&key);
                    if !found {
                        self.edges.insert(key, lattice);
                        created_ids.push(edge_id);
                        proof {
                            assert(strings_view(created_ids@) =~= st_j.created.push(
                                spec_edge_identifier(m.source, m.target, EdgeType::spec_of_code(
                                    m.edge_type,
                                )->0),
                            ));
                        }
                    } else {
                        proof {
                            lemma_emap_at(self@.edges, pos as int);
                            assert(self@.edge_map()[key@] == self@.edges[pos as int].1);
                        }
                        let mut current = self.edges.val_at(pos).duplicate();
                        current.merge(lattice);
                        self.edges.replace_at(pos, current);
                        merged_ids.push(edge_id);
                        proof {
                            assert(strings_view(merged_ids@) =~= st_j.merged.push(
                                spec_edge_identifier(m.source, m.target, EdgeType::spec_of_code(
                                    m.edge_type,
                                )->0),
                            ));
                        }
                    }
                },
            }
            j = j + 1;
        }
        proof {
            assert(d.edges.take(q as int) =~= d.edges);
            use_type_invariant(&self.nodes);
            use_type_invariant(&self.edges);
            lemma_node_fold_preserves_health(st0, d.nodes);
            lemma_edge_fold_preserves_health(node_apply_fold(st0, d.nodes), d.edges);
        }
        Ok(HypothesisMergeResult { created_ids, merged_ids, conflicts })
    }

    /// The incident's id, creation time and tombstone sets; fails when the
    /// incident is unknown.
    pub fn get_incident_context(&self, incident_id: &str) -> (r: Result<
        IncidentContext,
        StoreError,
    >)
        ensures
            match r {
                Ok(ctx) => {
                    &&& smap_contains(self@.incidents, incident_id@)
                    &&& ctx.incident_id@ == incident_id@
                    &&& ctx.created_at matches Some(t) && t@ == smap_lookup(
                        self@.incidents,
                        incident_id@,
                    ).created_at
                    &&& ctx.tombstones matches Some(ts) && strings_view(ts.node_ids@)
                        == smap_lookup(self@.incidents, incident_id@).node_tombstones
                        && edge_entries_view(ts.edge_entries@) == project_edge_tombstones(
                        smap_lookup(self@.incidents, incident_id@).edge_tombstones,
                    )
                },
                Err(e) => {
                    &&& !smap_contains(self@.incidents, incident_id@)
                    &&& e matches StoreError::IncidentNotFound(id) && id@ == incident_id@
                },
            },
    {
        let inc = match self.incidents.get(incident_id) {
            Some(inc) => inc,
            None => {
                return Err(StoreError::IncidentNotFound(incident_id.to_owned()));
            },
        };
        let tombstones = tombstone_set_of(inc);
        Ok(
            IncidentContext {
                incident_id: incident_id.to_owned(),
                created_at: Some(inc.created_at),
                tombstones: Some(tombstones),
            },
        )
    }

    /// Tombstone nodes within one incident, classifying each id; fails
    /// when the incident is unknown.  The graph and every other incident
    /// are untouched, and the incident's tombstone sets only grow.
    pub fn merge_node_tombstones(&mut self, request: &NodeTombstoneRequest) -> (r: Result<
        TombstoneMergeResult,
        StoreError,
    >)
        ensures
            final(self)@.nodes == old(self)@.nodes,
            final(self)@.edges == old(self)@.edges,
            smap_wf(final(self)@.nodes),
            emap_wf(final(self)@.edges),
            match r {
                Ok(res) => {
                    &&& smap_contains(old(self)@.incidents, request.incident_id@)
                    &&& ({
                        let before = smap_lookup(old(self)@.incidents, request.incident_id@);
                        let f = node_tomb_fold(
                            old(self)@.node_map().dom(),
                            NodeTombFold {
                                tombs: before.node_tombstones.to_set(),
                                applied: Seq::empty(),
                                already: Seq::empty(),
                                unmatched: Seq::empty(),
                            },
                            strings_view(request.node_ids@),
                        );
                        let after = smap_lookup(final(self)@.incidents, request.incident_id@);
                        &&& smap_contains(final(self)@.incidents, request.incident_id@)
                        &&& after.created_at == before.created_at
                        &&& after.edge_tombstones == before.edge_tombstones
                        &&& sset_wf(after.node_tombstones)
                        &&& after.node_tombstones.to_set() == f.tombs
                        &&& forall|q: Seq<char>|
                            before.node_tombstones.contains(q) ==> #[trigger] after.node_tombstones.contains(
                                q,
                            )
                        &&& forall|k: Seq<char>|
                            k != request.incident_id@ ==> #[trigger] final(self)@.incident_map().contains_key(k) == old(self)@.incident_map().contains_key(k) && (old(self)@.incident_map().contains_key(k) ==> final(self)@.incident_map()[k]
                                == old(self)@.incident_map()[k])
                        &&& strings_view(res.applied_ids@) == f.applied
                        &&& strings_view(res.already_tombstoned_ids@) == f.already
                        &&& strings_view(res.unmatched_ids@) == f.unmatched
                    })
                },
                Err(e) => {
                    &&& !smap_contains(old(self)@.incidents, request.incident_id@)
                    &&& e matches StoreError::IncidentNotFound(id) && id@ == request.incident_id@
                    &&& final(self)@ == old(self)@
                },
            },
    {
        let ghost s0 = self@;
        proof {
            use_type_invariant(&self.nodes);
            use_type_invariant(&self.edges);
        }
        let (ipos, ifound) = self.incidents.locate(request.incident_id.as_str());
        if !ifound {
            return Err(StoreError::IncidentNotFound(request.incident_id.clone()));
        }
        proof {
            lemma_smap_at(s0.incidents, ipos as int);
        }
        let placeholder = IncidentState {
            created_at: Timestamp { seconds: 0, nanos: 0 },
            node_tombstones: StringSet::new(),
            edge_tombstones: EdgeKeySet::new(),
        };
        let mut inc = self.incidents.replace_at(ipos, placeholder);
        proof {
            use_type_invariant(&inc.node_tombstones);
            use_type_invariant(&inc.edge_tombstones);
        }
        let ghost inc0 = inc@;
        let ghost node_dom = s0.node_map().dom();
        let ghost ids = strings_view(request.node_ids@);
        let ghost f0 = NodeTombFold {
            tombs: inc0.node_tombstones.to_set(),
            applied: Seq::empty(),
            already: Seq::empty(),
            unmatched: Seq::empty(),
        };
        let mut applied_ids: Vec<String> = Vec::new();
        let mut already_tombstoned_ids: Vec<String> = Vec::new();
        let mut unmatched_ids: Vec<String> = Vec::new();
        let ghost ikey = s0.incidents[ipos as int].0;
        proof {
            assert(ids.take(0) =~= Seq::<Seq<char>>::empty());
            assert(strings_view(applied_ids@) =~= Seq::<Seq<char>>::empty());
            assert(strings_view(already_tombstoned_ids@) =~= Seq::<Seq<char>>::empty());
            assert(strings_view(unmatched_ids@) =~= Seq::<Seq<char>>::empty());
            assert(node_tomb_fold(node_dom, f0, ids.take(0)) == f0);
        }
        let n = request.node_ids.len();
        let mut k: usize = 0;
        while k < n
            invariant
                n == ids.len(),
                k <= n,
                ids == strings_view(request.node_ids@),
                request.node_ids@.len() == n,
                s0 == old(self)@,
                ipos < s0.incidents.len(),
                ikey == s0.incidents[ipos as int].0,
                ikey == request.incident_id@,
                smap_wf(s0.incidents),
                smap_contains(s0.incidents, ikey),
                smap_index_of(s0.incidents, ikey) == ipos,
                inc0 == smap_lookup(s0.incidents, ikey),
                node_dom == s0.node_map().dom(),
                self@.nodes == s0.nodes,
                self@.edges == s0.edges,
                self@.incidents == s0.incidents.update(
                    ipos as int,
                    (ikey, IncidentView {
                        created_at: (0, 0),
                        node_tombstones: Seq::empty(),
                        edge_tombstones: Seq::empty(),
                    }),
                ),
                f0 == (NodeTombFold {
                    tombs: inc0.node_tombstones.to_set(),
                    applied: Seq::empty(),
                    already: Seq::empty(),
                    unmatched: Seq::empty(),
                }),
                node_tomb_fold(node_dom, f0, ids.take(k as int)) == (NodeTombFold {
                    tombs: inc@.node_tombstones.to_set(),
                    applied: strings_view(applied_ids@),
                    already: strings_view(already_tombstoned_ids@),
                    unmatched: strings_view(unmatched_ids@),
                }),
                sset_wf(inc@.node_tombstones),
                inc@.created_at == inc0.created_at,
                inc@.edge_tombstones == inc0.edge_tombstones,
                forall|q: Seq<char>|
                    inc0.node_tombstones.contains(q) ==> #[trigger] inc@.node_tombstones.contains(
                        q,
                    ),
            decreases n - k,
        {
            let ghost fk = node_tomb_fold(node_dom, f0, ids.take(k as int));
            proof {
                assert(ids.take(k as int).push(ids[k as int]) =~= ids.take(k as int + 1));
                lemma_node_tomb_fold_push(node_dom, f0, ids.take(k as int), ids[k as int]);
                assert(request.node_ids@[k as int]@ == ids[k as int]);
            }
            let id = request.node_ids[k].clone();
            if inc.node_tombstones.contains(id.as_str()) {
                already_tombstoned_ids.push(id);
                proof {
                    assert(strings_view(already_tombstoned_ids@) =~= fk.already.push(
                        ids[k as int],
                    ));
                }
            } else {
                let added = inc.node_tombstones.insert(id.clone());
                proof {
                    assert(inc@.node_tombstones.to_set() =~= fk.tombs.insert(ids[k as int]));
                    assert(self@.node_map().dom().contains(id@) == smap_contains(
                        self@.nodes,
                        id@,
                    ));
                }
                if self.nodes.contains_key(id.as_str()) {
                    applied_ids.push(id);
                    proof {
                        assert(strings_view(applied_ids@) =~= fk.applied.push(ids[k as int]));
                    }
                } else {
                    unmatched_ids.push(id);
                    proof {
                        assert(strings_view(unmatched_ids@) =~= fk.unmatched.push(ids[k as int]));
                    }
                }
            }
            k = k + 1;
        }
        proof {
            assert(ids.take(n as int) =~= ids);
        }
        self.incidents.replace_at(ipos, inc);
        proof {
            use_type_invariant(&self.nodes);
            use_type_invariant(&self.edges);
            crate::maps::lemma_smap_update(
                s0.incidents,
                ipos as int,
                IncidentView {
                    created_at: (0, 0),
                    node_tombstones: Seq::empty(),
                    edge_tombstones: Seq::empty(),
                },
            );
            assert(self@.incident_map() =~= s0.incident_map().insert(ikey, inc@));
            lemma_smap_at(self@.incidents, ipos as int);
            assert(self@.incidents[ipos as int].0 == ikey);
        }
        Ok(TombstoneMergeResult { applied_ids, already_tombstoned_ids, unmatched_ids })
    }

    /// Tombstone edges within one incident, classifying each entry; fails
    /// when the incident is unknown.  An undecodable type code stops
    /// processing with a backend error, keeping what already applied.
    /// The graph and every other incident are untouched, and the
    /// incident's tombstone sets only grow.
    pub fn merge_edge_tombstones(&mut self, request: &EdgeTombstoneRequest) -> (r: Result<
        TombstoneMergeResult,
        StoreError,
    >)
        ensures
            final(self)@.nodes == old(self)@.nodes,
            final(self)@.edges == old(self)@.edges,
            smap_wf(final(self)@.nodes),
            emap_wf(final(self)@.edges),
            !smap_contains(old(self)@.incidents, request.incident_id@) ==> final(self)@ == old(
                self,
            )@ && (r matches Err(e) && e matches StoreError::IncidentNotFound(id) && id@
                == request.incident_id@),
            smap_contains(old(self)@.incidents, request.incident_id@) ==> ({
                let before = smap_lookup(old(self)@.incidents, request.incident_id@);
                let f = edge_tomb_fold(
                    old(self)@.edge_map().dom(),
                    EdgeTombFold {
                        tombs: before.edge_tombstones.to_set(),
                        applied: Seq::empty(),
                        already: Seq::empty(),
                        unmatched: Seq::empty(),
                        error: None,
                    },
                    edge_entries_view(request.entries@),
                );
                let after = smap_lookup(final(self)@.incidents, request.incident_id@);
                &&& smap_contains(final(self)@.incidents, request.incident_id@)
                &&& after.created_at == before.created_at
                &&& after.node_tombstones == before.node_tombstones
                &&& ekset_wf(after.edge_tombstones)
                &&& after.edge_tombstones.to_set() == f.tombs
                &&& forall|q: EdgeKeyView|
                    before.edge_tombstones.contains(q) ==> #[trigger] after.edge_tombstones.contains(
                        q,
                    )
                &&& forall|c: Seq<char>|
                    c != request.incident_id@ ==> #[trigger] final(self)@.incident_map().contains_key(c) == old(self)@.incident_map().contains_key(c)
                        && (old(self)@.incident_map().contains_key(c) ==> final(self)@.incident_map()[c] == old(self)@.incident_map()[c])
                &&& match r {
                    Ok(res) => {
                        &&& f.error is None
                        &&& strings_view(res.applied_ids@) == f.applied
                        &&& strings_view(res.already_tombstoned_ids@) == f.already
                        &&& strings_view(res.unmatched_ids@) == f.unmatched
                    },
                    Err(e) => {
                        &&& f.error is Some
                        &&& e matches StoreError::Backend(msg) && msg@
                            == f.error->0.spec_message()
                    },
                }
            }),
    {
        let ghost s0 = self@;
        proof {
            use_type_invariant(&self.nodes);
            use_type_invariant(&self.edges);
        }
        let (ipos, ifound) = self.incidents.locate(request.incident_id.as_str());
        if !ifound {
            return Err(StoreError::IncidentNotFound(request.incident_id.clone()));
        }
        proof {
            lemma_smap_at(s0.incidents, ipos as int);
        }
        let placeholder = IncidentState {
            created_at: Timestamp { seconds: 0, nanos: 0 },
            node_tombstones: StringSet::new(),
            edge_tombstones: EdgeKeySet::new(),
        };
        let mut inc = self.incidents.replace_at(ipos, placeholder);
        proof {
            use_type_invariant(&inc.node_tombstones);
            use_type_invariant(&inc.edge_tombstones);
        }
        let ghost inc0 = inc@;
        let ghost edge_dom = s0.edge_map().dom();
        let ghost entries = edge_entries_view(request.entries@);
        let ghost f0 = EdgeTombFold {
            tombs: inc0.edge_tombstones.to_set(),
            applied: Seq::empty(),
            already: Seq::empty(),
            unmatched: Seq::empty(),
            error: None,
        };
        let mut applied_ids: Vec<String> = Vec::new();
        let mut already_tombstoned_ids: Vec<String> = Vec::new();
        let mut unmatched_ids: Vec<String> = Vec::new();
        proof {
            assert(entries.take(0) =~= Seq::<EdgeTombstoneEntryView>::empty());
            assert(strings_view(applied_ids@) =~= Seq::<Seq<char>>::empty());
            assert(strings_view(already_tombstoned_ids@) =~= Seq::<Seq<char>>::empty());
            assert(strings_view(unmatched_ids@) =~= Seq::<Seq<char>>::empty());
            assert(edge_tomb_fold(edge_dom, f0, entries.take(0)) == f0);
        }
        let ghost ikey = s0.incidents[ipos as int].0;
        let n = request.entries.len();
        let mut k: usize = 0;
        while k < n
            invariant
                n == entries.len(),
                k <= n,
                entries == edge_entries_view(request.entries@),
                request.entries@.len() == n,
                s0 == old(self)@,
                ipos < s0.incidents.len(),
                ikey == s0.incidents[ipos as int].0,
                ikey == request.incident_id@,
                smap_wf(s0.incidents),
                smap_contains(s0.incidents, ikey),
                smap_index_of(s0.incidents, ikey) == ipos,
                inc0 == smap_lookup(s0.incidents, ikey),
                edge_dom == s0.edge_map().dom(),
                self@.nodes == s0.nodes,
                self@.edges == s0.edges,
                self@.incidents == s0.incidents.update(
                    ipos as int,
                    (ikey, IncidentView {
                        created_at: (0, 0),
                        node_tombstones: Seq::empty(),
                        edge_tombstones: Seq::empty(),
                    }),
                ),
                f0 == (EdgeTombFold {
                    tombs: inc0.edge_tombstones.to_set(),
                    applied: Seq::empty(),
                    already: Seq::empty(),
                    unmatched: Seq::empty(),
                    error: None,
                }),
                edge_tomb_fold(edge_dom, f0, entries.take(k as int)) == (EdgeTombFold {
                    tombs: inc@.edge_tombstones.to_set(),
                    applied: strings_view(applied_ids@),
                    already: strings_view(already_tombstoned_ids@),
                    unmatched: strings_view(unmatched_ids@),
                    error: None,
                }),
                ekset_wf(inc@.edge_tombstones),
                inc@.created_at == inc0.created_at,
                inc@.node_tombstones == inc0.node_tombstones,
                forall|q: EdgeKeyView|
                    inc0.edge_tombstones.contains(q) ==> #[trigger] inc@.edge_tombstones.contains(
                        q,
                    ),
            decreases n - k,
        {
            let ghost fk = edge_tomb_fold(edge_dom, f0, entries.take(k as int));
            let ghost m = entries[k as int];
            proof {
                assert(entries.take(k as int).push(m) =~= entries.take(k as int + 1));
                lemma_edge_tomb_fold_push(edge_dom, f0, entries.take(k as int), m);
                assert(request.entries@[k as int]@ == m);
            }
            let entry = &request.entries[k];
            let edge_type = match EdgeType::from_code(entry.edge_type) {
                Ok(t) => t,
                Err(e) => {
                    let msg = e.message();
                    proof {
                        let f_err = edge_tomb_step(edge_dom, fk, m);
                        assert(f_err.error is Some);
                        assert(entries =~= entries.take(k as int + 1) + entries.skip(
                            k as int + 1,
                        ));
                        lemma_edge_tomb_fold_split(
                            edge_dom,
                            f0,
                            entries.take(k as int + 1),
                            entries.skip(k as int + 1),
                        );
                        lemma_edge_tomb_fold_error(edge_dom, f_err, entries.skip(k as int + 1));
                    }
                    self.incidents.replace_at(ipos, inc);
                    proof {
                        use_type_invariant(&self.nodes);
                        use_type_invariant(&self.edges);
                        crate::maps::lemma_smap_update(
                            s0.incidents,
                            ipos as int,
                            IncidentView {
                                created_at: (0, 0),
                                node_tombstones: Seq::empty(),
                                edge_tombstones: Seq::empty(),
                            },
                        );
                        assert(self@.incident_map() =~= s0.incident_map().insert(ikey, inc@));
                        lemma_smap_at(self@.incidents, ipos as int);
                        assert(self@.incidents[ipos as int].0 == ikey);
                    }
                    return Err(StoreError::Backend(msg));
                },
            };
            let key = EdgeKey::new(entry.source.clone(), entry.target.clone(), edge_type);
            let edge_id = edge_identifier(&key.source, &key.target, key.edge_type);
            if inc.edge_tombstones.contains(&key) {
                already_tombstoned_ids.push(edge_id);
                proof {
                    assert(strings_view(already_tombstoned_ids@) =~= fk.already.push(
                        spec_edge_identifier(m.source, m.target, EdgeType::spec_of_code(
                            m.edge_type,
                        )->0),
                    ));
                }
            } else {
                let ghost key_view = key@;
                inc.edge_tombstones.insert(key);
                proof {
                    assert(inc@.edge_tombstones.to_set() =~= fk.tombs.insert(key_view));
                    assert(self@.edge_map().dom().contains(key_view) == emap_contains(
                        self@.edges,
                        key_view,
                    ));
                }
                let probe = EdgeKey::new(entry.source.clone(), entry.target.clone(), edge_type);
                if self.edges.contains_key(&probe) {
                    applied_ids.push(edge_id);
                    proof {
                        assert(strings_view(applied_ids@) =~= fk.applied.push(
                            spec_edge_identifier(m.source, m.target, EdgeType::spec_of_code(
                                m.edge_type,
                            )->0),
                        ));
                    }
                } else {
                    unmatched_ids.push(edge_id);
                    proof {
                        assert(strings_view(unmatched_ids@) =~= fk.unmatched.push(
                            spec_edge_identifier(m.source, m.target, EdgeType::spec_of_code(
                                m.edge_type,
                            )->0),
                        ));
                    }
                }
            }
            k = k + 1;
        }
        proof {
            assert(entries.take(n as int) =~= entries);
        }
        self.incidents.replace_at(ipos, inc);
        proof {
            use_type_invariant(&self.nodes);
            use_type_invariant(&self.edges);
            crate::maps::lemma_smap_update(
                s0.incidents,
                ipos as int,
                IncidentView {
                    created_at: (0, 0),
                    node_tombstones: Seq::empty(),
                    edge_tombstones: Seq::empty(),
                },
            );
            assert(self@.incident_map() =~= s0.incident_map().insert(ikey, inc@));
            lemma_smap_at(self@.incidents, ipos as int);
            assert(self@.incidents[ipos as int].0 == ikey);
        }
        Ok(TombstoneMergeResult { applied_ids, already_tombstoned_ids, unmatched_ids })
    }

    /// The live projection of the graph for one incident: nodes whose id
    /// is not tombstoned, and edges neither tombstoned themselves nor
    /// incident on a tombstoned node; ascending by key.  Fails when the
    /// incident is unknown.
    #[verifier::rlimit(100)]
    #[verifier::spinoff_prover]
    pub fn get_live_view(&self, incident_id: &str) -> (r: Result<CausalGraph, StoreError>)
        ensures
            smap_wf(self@.nodes),
            emap_wf(self@.edges),
            r is Ok <==> smap_contains(self@.incidents, incident_id@),
            r matches Ok(g) ==> Seq::new(g.nodes@.len(), |i: int| g.nodes@[i]@) == live_nodes(
                self@.nodes,
                smap_lookup(self@.incidents, incident_id@).node_tombstones,
            ),
            r matches Ok(g) ==> Seq::new(g.edges@.len(), |i: int| g.edges@[i]@) == live_edges(
                self@.edges,
                smap_lookup(self@.incidents, incident_id@).edge_tombstones,
                smap_lookup(self@.incidents, incident_id@).node_tombstones,
            ),
            r matches Ok(g) ==> forall|i: int|
                0 <= i < g.nodes@.len() ==> !smap_lookup(
                    self@.incidents,
                    incident_id@,
                ).node_tombstones.contains(#[trigger] g.nodes@[i]@.id),
            r matches Ok(g) ==> forall|i: int|
                0 <= i < g.edges@.len() ==> !smap_lookup(
                    self@.incidents,
                    incident_id@,
                ).node_tombstones.contains(#[trigger] g.edges@[i]@.source) && !smap_lookup(
                    self@.incidents,
                    incident_id@,
                ).node_tombstones.contains(g.edges@[i]@.target),
            r matches Err(e) ==> e matches StoreError::IncidentNotFound(id) && id@
                == incident_id@,
    {
        proof {
            use_type_invariant(&self.nodes);
            use_type_invariant(&self.edges);
        }
        let inc = match self.incidents.get(incident_id) {
            Some(inc) => inc,
            None => {
                return Err(StoreError::IncidentNotFound(incident_id.to_owned()));
            },
        };
        let ghost node_tombs = inc@.node_tombstones;
        let ghost edge_tombs = inc@.edge_tombstones;
        let mut nodes: Vec<Node> = Vec::new();
        proof {
            assert(self@.nodes.take(0) =~= Seq::<(Seq<char>, NodeView)>::empty());
            assert(Seq::new(nodes@.len(), |i: int| nodes@[i]@) =~= Seq::<NodeMsgView>::empty());
        }
        let n = self.nodes.len();
        let mut i: usize = 0;
        while i < n
            invariant
                n == self@.nodes.len(),
                i <= n,
                node_tombs == inc@.node_tombstones,
                edge_tombs == inc@.edge_tombstones,
                Seq::new(nodes@.len(), |x: int| nodes@[x]@) == live_nodes(
                    self@.nodes.take(i as int),
                    node_tombs,
                ),
            decreases n - i,
        {
            proof {
                assert(self@.nodes.take(i as int).push(self@.nodes[i as int]) =~= self@.nodes.take(
                    i as int + 1,
                ));
                lemma_live_nodes_push(
                    self@.nodes.take(i as int),
                    node_tombs,
                    self@.nodes[i as int],
                );
            }
            let id = self.nodes.key_at(i);
            if !inc.node_tombstones.contains(id.as_str()) {
                let msg = domain_node_to_message(id.clone(), self.nodes.val_at(i));
                nodes.push(msg);
                proof {
                    assert(Seq::new(nodes@.len(), |x: int| nodes@[x]@) =~= live_nodes(
                        self@.nodes.take(i as int),
                        node_tombs,
                    ).push(project_node(self@.nodes[i as int].0, self@.nodes[i as int].1)));
                }
            }
            i = i + 1;
        }
        proof {
            assert(self@.nodes.take(n as int) =~= self@.nodes);
        }
        let mut edges: Vec<Edge> = Vec::new();
        proof {
            assert(self@.edges.take(0) =~= Seq::<(EdgeKeyView, Seq<ProvView>)>::empty());
            assert(Seq::new(edges@.len(), |x: int| edges@[x]@) =~= Seq::<EdgeMsgView>::empty());
        }
        let m = self.edges.len();
        let mut j: usize = 0;
        while j < m
            invariant
                m == self@.edges.len(),
                j <= m,
                node_tombs == inc@.node_tombstones,
                edge_tombs == inc@.edge_tombstones,
                Seq::new(edges@.len(), |x: int| edges@[x]@) == live_edges(
                    self@.edges.take(j as int),
                    edge_tombs,
                    node_tombs,
                ),
            decreases m - j,
        {
            proof {
                assert(self@.edges.take(j as int).push(self@.edges[j as int]) =~= self@.edges.take(
                    j as int + 1,
                ));
                lemma_live_edges_push(
                    self@.edges.take(j as int),
                    edge_tombs,
                    node_tombs,
                    self@.edges[j as int],
                );
            }
            let key = self.edges.key_at(j);
            if !inc.edge_tombstones.contains(key) && !inc.node_tombstones.contains(
                key.source.as_str(),
            ) && !inc.node_tombstones.contains(key.target.as_str()) {
                let msg = domain_edge_to_message(key, self.edges.val_at(j));
                edges.push(msg);
                proof {
                    assert(Seq::new(edges@.len(), |x: int| edges@[x]@) =~= live_edges(
                        self@.edges.take(j as int),
                        edge_tombs,
                        node_tombs,
                    ).push(project_edge(self@.edges[j as int].0, self@.edges[j as int].1)));
                }
            }
            j = j + 1;
        }
        proof {
            assert(self@.edges.take(m as int) =~= self@.edges);
            lemma_live_nodes_masked(self@.nodes, node_tombs);
            lemma_live_edges_masked(self@.edges, edge_tombs, node_tombs);
            assert forall|x: int| 0 <= x < nodes@.len() implies !node_tombs.contains(
                #[trigger] nodes@[x]@.id,
            ) by {
                assert(Seq::new(nodes@.len(), |y: int| nodes@[y]@)[x] == nodes@[x]@);
                assert(live_nodes(self@.nodes, node_tombs)[x] == nodes@[x]@);
            }
            assert forall|x: int| 0 <= x < edges@.len() implies !node_tombs.contains(
                #[trigger] edges@[x]@.source,
            ) && !node_tombs.contains(edges@[x]@.target) by {
                assert(Seq::new(edges@.len(), |y: int| edges@[y]@)[x] == edges@[x]@);
                assert(live_edges(self@.edges, edge_tombs, node_tombs)[x] == edges@[x]@);
            }
        }
        Ok(CausalGraph { nodes, edges })
    }

    /// The incident's tombstone sets verbatim; fails when the incident is
    /// unknown.
    pub fn get_tombstones(&self, incident_id: &str) -> (r: Result<TombstoneSet, StoreError>)
        ensures
            match r {
                Ok(ts) => {
                    &&& smap_contains(self@.incidents, incident_id@)
                    &&& strings_view(ts.node_ids@) == smap_lookup(
                        self@.incidents,
                        incident_id@,
                    ).node_tombstones
                    &&& edge_entries_view(ts.edge_entries@) == project_edge_tombstones(
                        smap_lookup(self@.incidents, incident_id@).edge_tombstones,
                    )
                },
                Err(e) => {
                    &&& !smap_contains(self@.incidents, incident_id@)
                    &&& e matches StoreError::IncidentNotFound(id) && id@ == incident_id@
                },
            },
    {
        match self.incidents.get(incident_id) {
            Some(inc) => Ok(tombstone_set_of(inc)),
            None => Err(StoreError::IncidentNotFound(incident_id.to_owned())),
        }
    }

    /// All nodes and edges, unfiltered, ascending by key.
    pub fn get_main_graph(&self) -> (r: Result<CausalGraph, StoreError>)
        ensures
            smap_wf(self@.nodes),
            emap_wf(self@.edges),
            match r {
                Ok(g) => {
                    &&& Seq::new(g.nodes@.len(), |i: int| g.nodes@[i]@) == project_all_nodes(
                        self@.nodes,
                    )
                    &&& Seq::new(g.edges@.len(), |i: int| g.edges@[i]@) == project_all_edges(
                        self@.edges,
                    )
                },
                Err(_) => false,
            },
    {
        proof {
            use_type_invariant(&self.nodes);
            use_type_invariant(&self.edges);
        }
        let mut nodes: Vec<Node> = Vec::new();
        let n = self.nodes.len();
        let mut i: usize = 0;
        while i < n
            invariant
                n == self@.nodes.len(),
                i <= n,
                nodes@.len() == i,
                forall|k: int| 0 <= k < i ==> nodes@[k]@ == project_all_nodes(self@.nodes)[k],
            decreases n - i,
        {
            let id = self.nodes.key_at(i).clone();
            let msg = domain_node_to_message(id, self.nodes.val_at(i));
            nodes.push(msg);
            i = i + 1;
        }
        let mut edges: Vec<Edge> = Vec::new();
        let m = self.edges.len();
        let mut j: usize = 0;
        while j < m
            invariant
                m == self@.edges.len(),
                j <= m,
                edges@.len() == j,
                forall|k: int| 0 <= k < j ==> edges@[k]@ == project_all_edges(self@.edges)[k],
            decreases m - j,
        {
            let msg = domain_edge_to_message(self.edges.key_at(j), self.edges.val_at(j));
            edges.push(msg);
            j = j + 1;
        }
        let r = CausalGraph { nodes, edges };
        proof {
            assert(Seq::new(r.nodes@.len(), |i: int| r.nodes@[i]@) =~= project_all_nodes(
                self@.nodes,
            ));
            assert(Seq::new(r.edges@.len(), |i: int| r.edges@[i]@) =~= project_all_edges(
                self@.edges,
            ));
        }
        Ok(r)
    }
}

impl Default for InMemoryStore {
    /// An empty store.
    fn default() -> (r: Self)
        ensures
            r@.nodes == Seq::<(Seq<char>, NodeView)>::empty(),
            r@.edges == Seq::<(EdgeKeyView, Seq<ProvView>)>::empty(),
            r@.incidents == Seq::<(Seq<char>, IncidentView)>::empty(),
    {
        InMemoryStore::new()
    }
}

/// The storage interface the service delegates to: the eight operations
/// over the global graph and the incident records.  [`InMemoryStore`]
/// implements it, carrying the verified contracts on its own methods; a
/// durable backend would implement the same surface.
pub trait Store: Sized {
    /// Apply one delta of proposed nodes and edges.
    fn merge_hypothesis(&mut self, delta: &HypothesisDelta) -> Result<
        HypothesisMergeResult,
        StoreError,
    >;

    /// Create an incident if it does not exist; idempotent.
    fn create_incident(&mut self, incident_id: &str) -> Result<CreateIncidentResult, StoreError>;

    /// The incident's id, creation time and tombstone sets.
    fn get_incident_context(&self, incident_id: &str) -> Result<IncidentContext, StoreError>;

    /// Tombstone nodes within one incident.
    fn merge_node_tombstones(&mut self, request: &NodeTombstoneRequest) -> Result<
        TombstoneMergeResult,
        StoreError,
    >;

    /// Tombstone edges within one incident.
    fn merge_edge_tombstones(&mut self, request: &EdgeTombstoneRequest) -> Result<
        TombstoneMergeResult,
        StoreError,
    >;

    /// The incident's projection of the graph under its tombstones.
    fn get_live_view(&self, incident_id: &str) -> Result<CausalGraph, StoreError>;

    /// The incident's tombstone sets verbatim.
    fn get_tombstones(&self, incident_id: &str) -> Result<TombstoneSet, StoreError>;

    /// All nodes and edges, unfiltered.
    fn get_main_graph(&self) -> Result<CausalGraph, StoreError>;
}

impl Store for InMemoryStore {
    fn merge_hypothesis(&mut self, delta: &HypothesisDelta) -> Result<
        HypothesisMergeResult,
        StoreError,
    > {
        InMemoryStore::merge_hypothesis(self, delta)
    }

    fn create_incident(&mut self, incident_id: &str) -> Result<CreateIncidentResult, StoreError> {
        InMemoryStore::create_incident(self, incident_id)
    }

    fn get_incident_context(&self, incident_id: &str) -> Result<IncidentContext, StoreError> {
        InMemoryStore::get_incident_context(self, incident_id)
    }

    fn merge_node_tombstones(&mut self, request: &NodeTombstoneRequest) -> Result<
        TombstoneMergeResult,
        StoreError,
    > {
        InMemoryStore::merge_node_tombstones(self, request)
    }

    fn merge_edge_tombstones(&mut self, request: &EdgeTombstoneRequest) -> Result<
        TombstoneMergeResult,
        StoreError,
    > {
        InMemoryStore::merge_edge_tombstones(self, request)
    }

    fn get_live_view(&self, incident_id: &str) -> Result<CausalGraph, StoreError> {
        InMemoryStore::get_live_view(self, incident_id)
    }

    fn get_tombstones(&self, incident_id: &str) -> Result<TombstoneSet, StoreError> {
        InMemoryStore::get_tombstones(self, incident_id)
    }

    fn get_main_graph(&self) -> Result<CausalGraph, StoreError> {
        InMemoryStore::get_main_graph(self)
    }
}

} // verus!
