//! Laws of the merge engine.
//!
//! * A conflicting proposal leaves the stored entry bit-identical and is
//!   reported, while the other entries of the same delta still apply.
//! * Replaying a delta that applied cleanly changes nothing: nothing is
//!   created, nothing conflicts, and every entry reports as merged.
//! * Tombstones of one incident never affect another incident's view.

use crate::convert::{edge_lattice_of_msg, node_lattice_of_msg, spec_edge_identifier};
use crate::edge::EdgeKeyView;
use crate::edge_type::EdgeType;
use crate::messages::{DeltaView, EdgeMsgView, NodeMsgView};
use crate::node::{
    lemma_node_merge_absorbs, lemma_node_merge_idempotent, lemma_node_absorbs_trans,
    node_absorbs, node_has_conflict_spec, node_merge, node_wf, NodeView,
};
use crate::node_type::NodeType;
use crate::prov_set::{
    lemma_prov_from_seq_wf, lemma_prov_union_absorb, lemma_prov_union_props,
    prov_seq_contains_id, prov_seq_wf, prov_union,
};
use crate::provenance::ProvView;
use crate::store::{
    apply_delta, conflict_report, edge_apply_fold, edge_apply_step, edge_map_healthy, init_apply,
    live_edges, live_nodes, node_apply_fold, node_apply_step, node_map_healthy, ApplyState,
    StoreView,
};
use vstd::prelude::*;

verus! {

/// No two proposed nodes share an id.
pub open spec fn distinct_node_ids(msgs: Seq<NodeMsgView>) -> bool {
    forall|i: int, j: int| 0 <= i < j < msgs.len() ==> msgs[i].id != msgs[j].id
}

/// The ids of the proposed nodes, in order.
pub open spec fn node_ids_of(msgs: Seq<NodeMsgView>) -> Seq<Seq<char>> {
    Seq::new(msgs.len(), |i: int| msgs[i].id)
}

/// The synthetic identifiers of the proposed edges, in order.
pub open spec fn edge_idents_of(msgs: Seq<EdgeMsgView>) -> Seq<Seq<char>> {
    Seq::new(
        msgs.len(),
        |i: int|
            spec_edge_identifier(
                msgs[i].source,
                msgs[i].target,
                EdgeType::spec_of_code(msgs[i].edge_type)->0,
            ),
    )
}

/// The key a proposed edge addresses.
pub open spec fn edge_key_of(m: EdgeMsgView) -> EdgeKeyView {
    EdgeKeyView {
        source: m.source,
        target: m.target,
        edge_type: EdgeType::spec_of_code(m.edge_type)->0,
    }
}

/// Ids untouched by a node fold keep their binding.
proof fn lemma_node_fold_frame(st: ApplyState, msgs: Seq<NodeMsgView>, id: Seq<char>)
    requires
        forall|i: int| 0 <= i < msgs.len() ==> (#[trigger] msgs[i]).id != id,
    ensures
        node_apply_fold(st, msgs).nodes.dom().contains(id) == st.nodes.dom().contains(id),
        st.nodes.dom().contains(id) ==> node_apply_fold(st, msgs).nodes[id] == st.nodes[id],
    decreases msgs.len(),
{
    if msgs.len() != 0 {
        let st1 = node_apply_step(st, msgs[0]);
        assert(st1.nodes.dom().contains(id) == st.nodes.dom().contains(id));
        assert(st.nodes.dom().contains(id) ==> st1.nodes[id] == st.nodes[id]);
        assert forall|i: int| 0 <= i < msgs.drop_first().len() implies (#[trigger] msgs.drop_first()[i]).id
            != id by {
            assert(msgs.drop_first()[i] == msgs[i + 1]);
        }
        lemma_node_fold_frame(st1, msgs.drop_first(), id);
        assert(node_apply_fold(st, msgs) == node_apply_fold(st1, msgs.drop_first()));
    }
}

/// A node fold only appends to the result lists.
proof fn lemma_node_fold_monotone(st: ApplyState, msgs: Seq<NodeMsgView>)
    ensures
        node_apply_fold(st, msgs).edges == st.edges,
        node_apply_fold(st, msgs).created.len() >= st.created.len(),
        forall|k: int|
            0 <= k < st.created.len() ==> #[trigger] node_apply_fold(st, msgs).created[k]
                == st.created[k],
        node_apply_fold(st, msgs).merged.len() >= st.merged.len(),
        forall|k: int|
            0 <= k < st.merged.len() ==> #[trigger] node_apply_fold(st, msgs).merged[k]
                == st.merged[k],
        node_apply_fold(st, msgs).conflicts.len() >= st.conflicts.len(),
        forall|k: int|
            0 <= k < st.conflicts.len() ==> #[trigger] node_apply_fold(st, msgs).conflicts[k]
                == st.conflicts[k],
    decreases msgs.len(),
{
    if msgs.len() != 0 {
        let st1 = node_apply_step(st, msgs[0]);
        lemma_node_fold_monotone(st1, msgs.drop_first());
        assert(node_apply_fold(st, msgs) == node_apply_fold(st1, msgs.drop_first()));
    }
}

/// An edge fold touches only the edges and the result lists: the node
/// map and the conflicts are exactly preserved, and the lists only grow.
proof fn lemma_edge_fold_monotone(st: ApplyState, msgs: Seq<EdgeMsgView>)
    ensures
        edge_apply_fold(st, msgs).nodes == st.nodes,
        edge_apply_fold(st, msgs).conflicts == st.conflicts,
        edge_apply_fold(st, msgs).created.len() >= st.created.len(),
        forall|k: int|
            0 <= k < st.created.len() ==> #[trigger] edge_apply_fold(st, msgs).created[k]
                == st.created[k],
        edge_apply_fold(st, msgs).merged.len() >= st.merged.len(),
        forall|k: int|
            0 <= k < st.merged.len() ==> #[trigger] edge_apply_fold(st, msgs).merged[k]
                == st.merged[k],
    decreases msgs.len(),
{
    if msgs.len() != 0 {
        let st1 = edge_apply_step(st, msgs[0]);
        lemma_edge_fold_monotone(st1, msgs.drop_first());
        assert(edge_apply_fold(st, msgs) == edge_apply_fold(st1, msgs.drop_first()));
    }
}

/// Edge keys untouched by an edge fold keep their binding.
proof fn lemma_edge_fold_frame(st: ApplyState, msgs: Seq<EdgeMsgView>, key: EdgeKeyView)
    requires
        forall|i: int| 0 <= i < msgs.len() ==> edge_key_of(#[trigger] msgs[i]) != key,
    ensures
        edge_apply_fold(st, msgs).edges.dom().contains(key) == st.edges.dom().contains(key),
        st.edges.dom().contains(key) ==> edge_apply_fold(st, msgs).edges[key] == st.edges[key],
    decreases msgs.len(),
{
    if msgs.len() != 0 {
        let st1 = edge_apply_step(st, msgs[0]);
        assert(st1.edges.dom().contains(key) == st.edges.dom().contains(key));
        assert(st.edges.dom().contains(key) ==> st1.edges[key] == st.edges[key]);
        assert forall|i: int| 0 <= i < msgs.drop_first().len() implies edge_key_of(
            #[trigger] msgs.drop_first()[i],
        ) != key by {
            assert(msgs.drop_first()[i] == msgs[i + 1]);
        }
        lemma_edge_fold_frame(st1, msgs.drop_first(), key);
        assert(edge_apply_fold(st, msgs) == edge_apply_fold(st1, msgs.drop_first()));
    }
}

/// What happens to each proposed node of a delta whose ids are distinct
/// and whose codes all decode: a missing id is created with exactly the
/// proposed bundle; a present id either merges to the candidate, or, on
/// conflict, keeps its stored bundle bit-identical while the conflict is
/// reported.  In particular a conflict on one node never stops another
/// node of the same delta from applying.
pub proof fn lemma_node_fold_entry_effects(st: ApplyState, msgs: Seq<NodeMsgView>)
    requires
        distinct_node_ids(msgs),
        st.error is None,
        node_apply_fold(st, msgs).error is None,
    ensures
        forall|i: int|
            0 <= i < msgs.len() ==> {
                let m = #[trigger] msgs[i];
                let f = node_apply_fold(st, msgs);
                let nv = node_lattice_of_msg(m, NodeType::spec_of_code(m.node_type)->0);
                &&& NodeType::spec_of_code(m.node_type) is Some
                &&& f.nodes.dom().contains(m.id)
                &&& if !st.nodes.dom().contains(m.id) {
                    f.nodes[m.id] == nv && f.created.contains(m.id)
                } else {
                    if node_has_conflict_spec(node_merge(st.nodes[m.id], nv)) {
                        f.nodes[m.id] == st.nodes[m.id] && f.conflicts.contains(
                            conflict_report(
                                m.id,
                                st.nodes[m.id],
                                node_merge(st.nodes[m.id], nv),
                            ),
                        )
                    } else {
                        f.nodes[m.id] == node_merge(st.nodes[m.id], nv) && f.merged.contains(
                            m.id,
                        )
                    }
                }
            },
    decreases msgs.len(),
{
    if msgs.len() != 0 {
        let m0 = msgs[0];
        let st1 = node_apply_step(st, m0);
        let f = node_apply_fold(st, msgs);
        assert(f == node_apply_fold(st1, msgs.drop_first()));
        if st1.error is Some {
            crate::store::lemma_node_fold_error(st1, msgs.drop_first());
            assert(false);
        }
        assert(NodeType::spec_of_code(m0.node_type) is Some);
        assert forall|i: int|
            0 <= i < msgs.drop_first().len() implies (#[trigger] msgs.drop_first()[i]).id
            != m0.id by {
            assert(msgs.drop_first()[i] == msgs[i + 1]);
        }
        lemma_node_fold_frame(st1, msgs.drop_first(), m0.id);
        lemma_node_fold_monotone(st1, msgs.drop_first());
        // the first entry's own outcome survives the rest of the fold
        let nv0 = node_lattice_of_msg(m0, NodeType::spec_of_code(m0.node_type)->0);
        if !st.nodes.dom().contains(m0.id) {
            assert(st1.created.last() == m0.id);
            assert(f.created[st1.created.len() - 1] == m0.id);
            assert(f.created.contains(m0.id));
        } else if node_has_conflict_spec(node_merge(st.nodes[m0.id], nv0)) {
            assert(st1.conflicts.last() == conflict_report(
                m0.id,
                st.nodes[m0.id],
                node_merge(st.nodes[m0.id], nv0),
            ));
            assert(f.conflicts[st1.conflicts.len() - 1] == st1.conflicts.last());
            assert(f.conflicts.contains(st1.conflicts.last()));
        } else {
            assert(st1.merged.last() == m0.id);
            assert(f.merged[st1.merged.len() - 1] == m0.id);
            assert(f.merged.contains(m0.id));
        }
        // the later entries see the same bindings they saw before
        assert forall|i: int, j: int| 0 <= i < j < msgs.drop_first().len() implies (
        #[trigger] msgs.drop_first()[i]).id != (#[trigger] msgs.drop_first()[j]).id by {
            assert(msgs.drop_first()[i] == msgs[i + 1]);
            assert(msgs.drop_first()[j] == msgs[j + 1]);
        }
        lemma_node_fold_entry_effects(st1, msgs.drop_first());
        assert forall|i: int| 1 <= i < msgs.len() implies {
            let m = #[trigger] msgs[i];
            let nv = node_lattice_of_msg(m, NodeType::spec_of_code(m.node_type)->0);
            &&& NodeType::spec_of_code(m.node_type) is Some
            &&& f.nodes.dom().contains(m.id)
            &&& if !st.nodes.dom().contains(m.id) {
                f.nodes[m.id] == nv && f.created.contains(m.id)
            } else {
                if node_has_conflict_spec(node_merge(st.nodes[m.id], nv)) {
                    f.nodes[m.id] == st.nodes[m.id] && f.conflicts.contains(
                        conflict_report(m.id, st.nodes[m.id], node_merge(st.nodes[m.id], nv)),
                    )
                } else {
                    f.nodes[m.id] == node_merge(st.nodes[m.id], nv) && f.merged.contains(m.id)
                }
            }
        } by {
            let m = msgs[i];
            assert(msgs.drop_first()[i - 1] == m);
            assert(m.id != m0.id);
            assert(st1.nodes.dom().contains(m.id) == st.nodes.dom().contains(m.id));
            assert(st.nodes.dom().contains(m.id) ==> st1.nodes[m.id] == st.nodes[m.id]);
        }
    }
}

/// What happens to each proposed edge of a delta whose keys are distinct
/// and whose codes all decode: a missing key is created with exactly the
/// proposed provenance, a present key merges, and its identifier lands in
/// the matching result list.  Edges cannot conflict.
pub proof fn lemma_edge_fold_entry_effects(st: ApplyState, msgs: Seq<EdgeMsgView>)
    requires
        forall|i: int, j: int|
            0 <= i < j < msgs.len() ==> edge_key_of(msgs[i]) != edge_key_of(msgs[j]),
        st.error is None,
        edge_apply_fold(st, msgs).error is None,
    ensures
        forall|i: int|
            0 <= i < msgs.len() ==> {
                let m = #[trigger] msgs[i];
                let f = edge_apply_fold(st, msgs);
                let key = edge_key_of(m);
                let ident = spec_edge_identifier(
                    m.source,
                    m.target,
                    EdgeType::spec_of_code(m.edge_type)->0,
                );
                &&& EdgeType::spec_of_code(m.edge_type) is Some
                &&& f.edges.dom().contains(key)
                &&& if !st.edges.dom().contains(key) {
                    f.edges[key] == edge_lattice_of_msg(m) && f.created.contains(ident)
                } else {
                    f.edges[key] == prov_union(st.edges[key], edge_lattice_of_msg(m))
                        && f.merged.contains(ident)
                }
            },
    decreases msgs.len(),
{
    if msgs.len() != 0 {
        let m0 = msgs[0];
        let st1 = edge_apply_step(st, m0);
        let f = edge_apply_fold(st, msgs);
        assert(f == edge_apply_fold(st1, msgs.drop_first()));
        if st1.error is Some {
            crate::store::lemma_edge_fold_error(st1, msgs.drop_first());
            assert(false);
        }
        assert(EdgeType::spec_of_code(m0.edge_type) is Some);
        assert forall|i: int| 0 <= i < msgs.drop_first().len() implies edge_key_of(
            #[trigger] msgs.drop_first()[i],
        ) != edge_key_of(m0) by {
            assert(msgs.drop_first()[i] == msgs[i + 1]);
        }
        lemma_edge_fold_frame(st1, msgs.drop_first(), edge_key_of(m0));
        lemma_edge_fold_monotone(st1, msgs.drop_first());
        let ident0 = spec_edge_identifier(
            m0.source,
            m0.target,
            EdgeType::spec_of_code(m0.edge_type)->0,
        );
        if !st.edges.dom().contains(edge_key_of(m0)) {
            assert(st1.created.last() == ident0);
            assert(f.created[st1.created.len() - 1] == ident0);
            assert(f.created.contains(ident0));
        } else {
            assert(st1.merged.last() == ident0);
            assert(f.merged[st1.merged.len() - 1] == ident0);
            assert(f.merged.contains(ident0));
        }
        assert forall|i: int, j: int| 0 <= i < j < msgs.drop_first().len() implies edge_key_of(
            (#[trigger] msgs.drop_first()[i]),
        ) != edge_key_of((#[trigger] msgs.drop_first()[j])) by {
            assert(msgs.drop_first()[i] == msgs[i + 1]);
            assert(msgs.drop_first()[j] == msgs[j + 1]);
        }
        lemma_edge_fold_entry_effects(st1, msgs.drop_first());
        assert forall|i: int| 1 <= i < msgs.len() implies {
            let m = #[trigger] msgs[i];
            let key = edge_key_of(m);
            let ident = spec_edge_identifier(
                m.source,
                m.target,
                EdgeType::spec_of_code(m.edge_type)->0,
            );
            &&& EdgeType::spec_of_code(m.edge_type) is Some
            &&& f.edges.dom().contains(key)
            &&& if !st.edges.dom().contains(key) {
                f.edges[key] == edge_lattice_of_msg(m) && f.created.contains(ident)
            } else {
                f.edges[key] == prov_union(st.edges[key], edge_lattice_of_msg(m))
                    && f.merged.contains(ident)
            }
        } by {
            let m = msgs[i];
            assert(msgs.drop_first()[i - 1] == m);
            assert(edge_key_of(m) != edge_key_of(m0));
            assert(st1.edges.dom().contains(edge_key_of(m)) == st.edges.dom().contains(
                edge_key_of(m),
            ));
            assert(st.edges.dom().contains(edge_key_of(m)) ==> st1.edges[edge_key_of(m)]
                == st.edges[edge_key_of(m)]);
        }
    }
}

/// After a clean node fold (no error, no new conflict) the map stays
/// healthy, every old binding is absorbed into its successor, and the
/// stored bundle under every proposed id absorbs that proposal.
proof fn lemma_node_fold_accumulates(st: ApplyState, msgs: Seq<NodeMsgView>)
    requires
        node_map_healthy(st.nodes),
        st.error is None,
        node_apply_fold(st, msgs).error is None,
        node_apply_fold(st, msgs).conflicts == st.conflicts,
    ensures
        node_map_healthy(node_apply_fold(st, msgs).nodes),
        forall|id: Seq<char>|
            #[trigger] st.nodes.dom().contains(id) ==> node_apply_fold(
                st,
                msgs,
            ).nodes.dom().contains(id) && node_absorbs(
                node_apply_fold(st, msgs).nodes[id],
                st.nodes[id],
            ),
        forall|i: int|
            0 <= i < msgs.len() ==> {
                let m = #[trigger] msgs[i];
                &&& NodeType::spec_of_code(m.node_type) is Some
                &&& node_apply_fold(st, msgs).nodes.dom().contains(m.id)
                &&& node_absorbs(
                    node_apply_fold(st, msgs).nodes[m.id],
                    node_lattice_of_msg(m, NodeType::spec_of_code(m.node_type)->0),
                )
            },
    decreases msgs.len(),
{
    if msgs.len() == 0 {
        assert forall|id: Seq<char>| #[trigger]
            st.nodes.dom().contains(id) implies node_apply_fold(st, msgs).nodes.dom().contains(id)
            && node_absorbs(node_apply_fold(st, msgs).nodes[id], st.nodes[id]) by {
            lemma_node_merge_idempotent(st.nodes[id]);
        }
    } else {
        let m0 = msgs[0];
        let st1 = node_apply_step(st, m0);
        let f = node_apply_fold(st, msgs);
        assert(f == node_apply_fold(st1, msgs.drop_first()));
        if st1.error is Some {
            crate::store::lemma_node_fold_error(st1, msgs.drop_first());
            assert(false);
        }
        assert(NodeType::spec_of_code(m0.node_type) is Some);
        let t0 = NodeType::spec_of_code(m0.node_type)->0;
        let nv0 = node_lattice_of_msg(m0, t0);
        lemma_prov_from_seq_wf(crate::convert::prov_records_of_inputs(m0.provenance));
        assert(node_wf(nv0));
        if st.nodes.dom().contains(m0.id) && node_has_conflict_spec(
            node_merge(st.nodes[m0.id], nv0),
        ) {
            lemma_node_fold_monotone(st1, msgs.drop_first());
            assert(f.conflicts.len() > st.conflicts.len());
            assert(false);
        }
        if !st.nodes.dom().contains(m0.id) {
            assert(!node_has_conflict_spec(nv0));
            lemma_node_merge_idempotent(nv0);
            assert(node_absorbs(st1.nodes[m0.id], nv0));
        } else {
            lemma_node_merge_absorbs(st.nodes[m0.id], nv0);
            assert(node_absorbs(st1.nodes[m0.id], nv0));
            assert(node_absorbs(st1.nodes[m0.id], st.nodes[m0.id]));
        }
        assert(node_map_healthy(st1.nodes)) by {
            assert forall|id: Seq<char>| #[trigger]
                st1.nodes.dom().contains(id) implies node_wf(st1.nodes[id])
                && !node_has_conflict_spec(st1.nodes[id]) by {
                if id != m0.id {
                    assert(st.nodes.dom().contains(id));
                    assert(st1.nodes[id] == st.nodes[id]);
                }
            }
        }
        assert(st1.conflicts == st.conflicts);
        lemma_node_fold_accumulates(st1, msgs.drop_first());
        // the first entry's absorption survives the rest of the fold
        assert(st1.nodes.dom().contains(m0.id));
        assert(f.nodes.dom().contains(m0.id));
        assert(node_absorbs(f.nodes[m0.id], st1.nodes[m0.id]));
        lemma_node_absorbs_trans(f.nodes[m0.id], st1.nodes[m0.id], nv0);
        // old bindings are absorbed through the first step and the rest
        assert forall|id: Seq<char>| #[trigger]
            st.nodes.dom().contains(id) implies f.nodes.dom().contains(id) && node_absorbs(
            f.nodes[id],
            st.nodes[id],
        ) by {
            assert(st1.nodes.dom().contains(id));
            assert(node_absorbs(f.nodes[id], st1.nodes[id]));
            if id == m0.id {
                if st.nodes.dom().contains(m0.id) {
                    assert(node_wf(f.nodes[id]));
                    assert(node_wf(st1.nodes[id]));
                    assert(node_wf(st.nodes[id]));
                    lemma_node_absorbs_trans(f.nodes[id], st1.nodes[id], st.nodes[id]);
                }
            } else {
                assert(st1.nodes[id] == st.nodes[id]);
            }
        }
        // the later entries come from the recursive call
        assert forall|i: int| 1 <= i < msgs.len() implies {
            let m = #[trigger] msgs[i];
            &&& NodeType::spec_of_code(m.node_type) is Some
            &&& f.nodes.dom().contains(m.id)
            &&& node_absorbs(
                f.nodes[m.id],
                node_lattice_of_msg(m, NodeType::spec_of_code(m.node_type)->0),
            )
        } by {
            assert(msgs.drop_first()[i - 1] == msgs[i]);
        }
    }
}

/// Replaying node proposals the map already absorbs changes nothing:
/// every proposal reports as merged, in order.
proof fn lemma_node_fold_replay(st: ApplyState, msgs: Seq<NodeMsgView>)
    requires
        st.error is None,
        node_map_healthy(st.nodes),
        forall|i: int|
            0 <= i < msgs.len() ==> {
                let m = #[trigger] msgs[i];
                &&& NodeType::spec_of_code(m.node_type) is Some
                &&& st.nodes.dom().contains(m.id)
                &&& node_absorbs(
                    st.nodes[m.id],
                    node_lattice_of_msg(m, NodeType::spec_of_code(m.node_type)->0),
                )
            },
    ensures
        node_apply_fold(st, msgs) == (ApplyState { merged: st.merged + node_ids_of(msgs), ..st }),
    decreases msgs.len(),
{
    if msgs.len() == 0 {
        assert(node_ids_of(msgs) =~= Seq::<Seq<char>>::empty());
        assert(st.merged + node_ids_of(msgs) =~= st.merged);
        assert(node_apply_fold(st, msgs) == st);
        assert((ApplyState { merged: st.merged + node_ids_of(msgs), ..st }) == st);
    } else {
        let m0 = msgs[0];
        let t0 = NodeType::spec_of_code(m0.node_type)->0;
        let nv0 = node_lattice_of_msg(m0, t0);
        let cand = node_merge(st.nodes[m0.id], nv0);
        assert(cand == st.nodes[m0.id]);
        assert(!node_has_conflict_spec(cand));
        let st1 = node_apply_step(st, m0);
        assert(st1.nodes =~= st.nodes);
        assert(st1 == (ApplyState { nodes: st1.nodes, merged: st.merged.push(m0.id), ..st }));
        assert forall|i: int| 0 <= i < msgs.drop_first().len() implies {
            let m = #[trigger] msgs.drop_first()[i];
            &&& NodeType::spec_of_code(m.node_type) is Some
            &&& st1.nodes.dom().contains(m.id)
            &&& node_absorbs(
                st1.nodes[m.id],
                node_lattice_of_msg(m, NodeType::spec_of_code(m.node_type)->0),
            )
        } by {
            assert(msgs.drop_first()[i] == msgs[i + 1]);
        }
        lemma_node_fold_replay(st1, msgs.drop_first());
        assert(node_apply_fold(st, msgs) == node_apply_fold(st1, msgs.drop_first()));
        assert(st.merged.push(m0.id) + node_ids_of(msgs.drop_first()) =~= st.merged
            + node_ids_of(msgs)) by {
            assert forall|k: int| 0 <= k < msgs.drop_first().len() implies node_ids_of(
                msgs.drop_first(),
            )[k] == node_ids_of(msgs)[k + 1] by {
                assert(msgs.drop_first()[k] == msgs[k + 1]);
            }
        }
    }
}

/// After a clean edge fold the map stays healthy, every old identity is
/// kept, and every proposed provenance identity is present under its key.
proof fn lemma_edge_fold_accumulates(st: ApplyState, msgs: Seq<EdgeMsgView>)
    requires
        edge_map_healthy(st.edges),
        st.error is None,
        edge_apply_fold(st, msgs).error is None,
    ensures
        edge_map_healthy(edge_apply_fold(st, msgs).edges),
        forall|k: EdgeKeyView|
            #[trigger] st.edges.dom().contains(k) ==> edge_apply_fold(
                st,
                msgs,
            ).edges.dom().contains(k) && (forall|id: (Seq<char>, Seq<char>)|
                #[trigger] prov_seq_contains_id(st.edges[k], id) ==> prov_seq_contains_id(
                    edge_apply_fold(st, msgs).edges[k],
                    id,
                )),
        forall|i: int|
            0 <= i < msgs.len() ==> {
                let m = #[trigger] msgs[i];
                &&& EdgeType::spec_of_code(m.edge_type) is Some
                &&& edge_apply_fold(st, msgs).edges.dom().contains(edge_key_of(m))
                &&& forall|id: (Seq<char>, Seq<char>)|
                    #[trigger] prov_seq_contains_id(edge_lattice_of_msg(m), id)
                        ==> prov_seq_contains_id(
                        edge_apply_fold(st, msgs).edges[edge_key_of(m)],
                        id,
                    )
            },
    decreases msgs.len(),
{
    if msgs.len() != 0 {
        let m0 = msgs[0];
        let st1 = edge_apply_step(st, m0);
        let f = edge_apply_fold(st, msgs);
        assert(f == edge_apply_fold(st1, msgs.drop_first()));
        if st1.error is Some {
            crate::store::lemma_edge_fold_error(st1, msgs.drop_first());
            assert(false);
        }
        assert(EdgeType::spec_of_code(m0.edge_type) is Some);
        let key0 = edge_key_of(m0);
        let ev0 = edge_lattice_of_msg(m0);
        lemma_prov_from_seq_wf(crate::convert::prov_records_of_inputs(m0.provenance));
        assert(prov_seq_wf(ev0));
        if st.edges.dom().contains(key0) {
            lemma_prov_union_props(st.edges[key0], ev0);
        }
        assert(edge_map_healthy(st1.edges)) by {
            assert forall|k: EdgeKeyView| #[trigger]
                st1.edges.dom().contains(k) implies prov_seq_wf(st1.edges[k]) by {
                if k != key0 {
                    assert(st.edges.dom().contains(k));
                    assert(st1.edges[k] == st.edges[k]);
                }
            }
        }
        lemma_edge_fold_accumulates(st1, msgs.drop_first());
        // the first entry's identities survive the rest of the fold
        assert(st1.edges.dom().contains(key0));
        assert(f.edges.dom().contains(key0));
        assert forall|id: (Seq<char>, Seq<char>)|
            #[trigger] prov_seq_contains_id(ev0, id) implies prov_seq_contains_id(
            f.edges[key0],
            id,
        ) by {
            assert(prov_seq_contains_id(st1.edges[key0], id));
        }
        // old identities survive the first step and the rest
        assert forall|k: EdgeKeyView| #[trigger]
            st.edges.dom().contains(k) implies f.edges.dom().contains(k) && (forall|
            id: (Seq<char>, Seq<char>),
        |
            #[trigger] prov_seq_contains_id(st.edges[k], id) ==> prov_seq_contains_id(
                f.edges[k],
                id,
            )) by {
            assert(st1.edges.dom().contains(k));
            assert forall|id: (Seq<char>, Seq<char>)|
                #[trigger] prov_seq_contains_id(st.edges[k], id) implies prov_seq_contains_id(
                f.edges[k],
                id,
            ) by {
                assert(prov_seq_contains_id(st1.edges[k], id));
            }
        }
        // the later entries come from the recursive call
        assert forall|i: int| 1 <= i < msgs.len() implies {
            let m = #[trigger] msgs[i];
            &&& EdgeType::spec_of_code(m.edge_type) is Some
            &&& f.edges.dom().contains(edge_key_of(m))
            &&& forall|id: (Seq<char>, Seq<char>)|
                #[trigger] prov_seq_contains_id(edge_lattice_of_msg(m), id)
                    ==> prov_seq_contains_id(f.edges[edge_key_of(m)], id)
        } by {
            assert(msgs.drop_first()[i - 1] == msgs[i]);
        }
    }
}

/// Replaying edge proposals whose identities the map already holds
/// changes nothing: every proposal reports as merged, in order.
proof fn lemma_edge_fold_replay(st: ApplyState, msgs: Seq<EdgeMsgView>)
    requires
        st.error is None,
        edge_map_healthy(st.edges),
        forall|i: int|
            0 <= i < msgs.len() ==> {
                let m = #[trigger] msgs[i];
                &&& EdgeType::spec_of_code(m.edge_type) is Some
                &&& st.edges.dom().contains(edge_key_of(m))
                &&& forall|id: (Seq<char>, Seq<char>)|
                    #[trigger] prov_seq_contains_id(edge_lattice_of_msg(m), id)
                        ==> prov_seq_contains_id(st.edges[edge_key_of(m)], id)
            },
    ensures
        edge_apply_fold(st, msgs) == (ApplyState {
            merged: st.merged + edge_idents_of(msgs),
            ..st
        }),
    decreases msgs.len(),
{
    if msgs.len() == 0 {
        assert(edge_idents_of(msgs) =~= Seq::<Seq<char>>::empty());
        assert(st.merged + edge_idents_of(msgs) =~= st.merged);
        assert(edge_apply_fold(st, msgs) == st);
        assert((ApplyState { merged: st.merged + edge_idents_of(msgs), ..st }) == st);
    } else {
        let m0 = msgs[0];
        let key0 = edge_key_of(m0);
        let ev0 = edge_lattice_of_msg(m0);
        lemma_prov_union_absorb(st.edges[key0], ev0);
        assert(prov_union(st.edges[key0], ev0) == st.edges[key0]);
        let st1 = edge_apply_step(st, m0);
        assert(st1.edges =~= st.edges);
        let ident0 = spec_edge_identifier(
            m0.source,
            m0.target,
            EdgeType::spec_of_code(m0.edge_type)->0,
        );
        assert(st1 == (ApplyState { edges: st1.edges, merged: st.merged.push(ident0), ..st }));
        assert forall|i: int| 0 <= i < msgs.drop_first().len() implies {
            let m = #[trigger] msgs.drop_first()[i];
            &&& EdgeType::spec_of_code(m.edge_type) is Some
            &&& st1.edges.dom().contains(edge_key_of(m))
            &&& forall|id: (Seq<char>, Seq<char>)|
                #[trigger] prov_seq_contains_id(edge_lattice_of_msg(m), id)
                    ==> prov_seq_contains_id(st1.edges[edge_key_of(m)], id)
        } by {
            assert(msgs.drop_first()[i] == msgs[i + 1]);
        }
        lemma_edge_fold_replay(st1, msgs.drop_first());
        assert(edge_apply_fold(st, msgs) == edge_apply_fold(st1, msgs.drop_first()));
        assert(st.merged.push(ident0) + edge_idents_of(msgs.drop_first()) =~= st.merged
            + edge_idents_of(msgs)) by {
            assert forall|k: int| 0 <= k < msgs.drop_first().len() implies edge_idents_of(
                msgs.drop_first(),
            )[k] == edge_idents_of(msgs)[k + 1] by {
                assert(msgs.drop_first()[k] == msgs[k + 1]);
            }
        }
    }
}

/// Replaying a delta that applied without error or conflict is
/// idempotent: the graph is unchanged, nothing is created, nothing
/// conflicts, and every entry reports as merged in delta order.
pub proof fn lemma_delta_replay_idempotent(s: StoreView, d: DeltaView)
    requires
        node_map_healthy(s.node_map()),
        edge_map_healthy(s.edge_map()),
        apply_delta(s, d).error is None,
        apply_delta(s, d).conflicts == Seq::<crate::messages::ConflictView>::empty(),
    ensures
        ({
            let a1 = apply_delta(s, d);
            let a2 = crate::store::apply_delta_maps(a1.nodes, a1.edges, d);
            &&& a2.nodes == a1.nodes
            &&& a2.edges == a1.edges
            &&& a2.error is None
            &&& a2.conflicts == Seq::<crate::messages::ConflictView>::empty()
            &&& a2.created == Seq::<Seq<char>>::empty()
            &&& a2.merged == node_ids_of(d.nodes) + edge_idents_of(d.edges)
        }),
{
    let st0 = init_apply(s);
    let stn = node_apply_fold(st0, d.nodes);
    let a1 = apply_delta(s, d);
    assert(a1 == edge_apply_fold(stn, d.edges));
    if stn.error is Some {
        crate::store::lemma_edge_fold_error(stn, d.edges);
        assert(false);
    }
    lemma_edge_fold_monotone(stn, d.edges);
    assert(a1.nodes == stn.nodes);
    assert(a1.conflicts == stn.conflicts);
    assert(stn.conflicts == st0.conflicts);
    lemma_node_fold_accumulates(st0, d.nodes);
    lemma_node_fold_monotone(st0, d.nodes);
    assert(stn.edges == st0.edges);
    lemma_edge_fold_accumulates(stn, d.edges);
    let b0 = crate::store::apply_base(a1.nodes, a1.edges);
    lemma_node_fold_replay(b0, d.nodes);
    let bn = node_apply_fold(b0, d.nodes);
    assert(bn == (ApplyState { merged: b0.merged + node_ids_of(d.nodes), ..b0 }));
    assert(bn.edges == a1.edges);
    assert forall|i: int| 0 <= i < d.edges.len() implies {
        let m = #[trigger] d.edges[i];
        &&& EdgeType::spec_of_code(m.edge_type) is Some
        &&& bn.edges.dom().contains(edge_key_of(m))
        &&& forall|id: (Seq<char>, Seq<char>)|
            #[trigger] prov_seq_contains_id(edge_lattice_of_msg(m), id) ==> prov_seq_contains_id(
                bn.edges[edge_key_of(m)],
                id,
            )
    } by {}
    lemma_edge_fold_replay(bn, d.edges);
    let a2 = crate::store::apply_delta_maps(a1.nodes, a1.edges, d);
    assert(a2 == edge_apply_fold(bn, d.edges));
    assert(a2.merged =~= node_ids_of(d.nodes) + edge_idents_of(d.edges)) by {
        assert(b0.merged + node_ids_of(d.nodes) =~= node_ids_of(d.nodes));
    }
    assert(a2.created =~= Seq::<Seq<char>>::empty());
    assert(a2.conflicts =~= Seq::<crate::messages::ConflictView>::empty());
}

/// A node fold over proposals whose codes all decode never fails.
proof fn lemma_node_fold_no_error(st: ApplyState, msgs: Seq<NodeMsgView>)
    requires
        st.error is None,
        forall|i: int|
            0 <= i < msgs.len() ==> NodeType::spec_of_code((#[trigger] msgs[i]).node_type) is Some,
    ensures
        node_apply_fold(st, msgs).error is None,
    decreases msgs.len(),
{
    if msgs.len() != 0 {
        let st1 = node_apply_step(st, msgs[0]);
        assert(st1.error is None);
        assert forall|i: int| 0 <= i < msgs.drop_first().len() implies NodeType::spec_of_code(
            (#[trigger] msgs.drop_first()[i]).node_type,
        ) is Some by {
            assert(msgs.drop_first()[i] == msgs[i + 1]);
        }
        lemma_node_fold_no_error(st1, msgs.drop_first());
        assert(node_apply_fold(st, msgs) == node_apply_fold(st1, msgs.drop_first()));
    }
}

/// An edge fold over proposals whose codes all decode never fails.
proof fn lemma_edge_fold_no_error(st: ApplyState, msgs: Seq<EdgeMsgView>)
    requires
        st.error is None,
        forall|i: int|
            0 <= i < msgs.len() ==> EdgeType::spec_of_code((#[trigger] msgs[i]).edge_type) is Some,
    ensures
        edge_apply_fold(st, msgs).error is None,
    decreases msgs.len(),
{
    if msgs.len() != 0 {
        let st1 = edge_apply_step(st, msgs[0]);
        assert(st1.error is None);
        assert forall|i: int| 0 <= i < msgs.drop_first().len() implies EdgeType::spec_of_code(
            (#[trigger] msgs.drop_first()[i]).edge_type,
        ) is Some by {
            assert(msgs.drop_first()[i] == msgs[i + 1]);
        }
        lemma_edge_fold_no_error(st1, msgs.drop_first());
        assert(edge_apply_fold(st, msgs) == edge_apply_fold(st1, msgs.drop_first()));
    }
}

/// A delta that passes validation applies cleanly: validation demands
/// that every type code decode to a real variant, so the merge can never
/// end in a backend error.
pub proof fn lemma_validated_delta_never_errors(s: StoreView, d: DeltaView)
    requires
        crate::validation::spec_delta_ok(d),
    ensures
        apply_delta(s, d).error is None,
{
    let st0 = init_apply(s);
    assert forall|i: int| 0 <= i < d.nodes.len() implies NodeType::spec_of_code(
        (#[trigger] d.nodes[i]).node_type,
    ) is Some by {
        assert(crate::validation::spec_node_ok(d.nodes[i]));
    }
    lemma_node_fold_no_error(st0, d.nodes);
    assert forall|i: int| 0 <= i < d.edges.len() implies EdgeType::spec_of_code(
        (#[trigger] d.edges[i]).edge_type,
    ) is Some by {
        assert(crate::validation::spec_edge_ok(d.edges[i]));
    }
    lemma_edge_fold_no_error(node_apply_fold(st0, d.nodes), d.edges);
}

/// Whether a proposed node would hit a first-write-wins conflict against
/// the given node map.
pub open spec fn node_entry_conflicts(
    nodes0: Map<Seq<char>, NodeView>,
    m: NodeMsgView,
) -> bool {
    &&& NodeType::spec_of_code(m.node_type) is Some
    &&& nodes0.dom().contains(m.id)
    &&& node_has_conflict_spec(
        node_merge(nodes0[m.id], node_lattice_of_msg(m, NodeType::spec_of_code(m.node_type)->0)),
    )
}

/// The proposed nodes that do not conflict against the given map, in
/// order.
pub open spec fn non_conflicting(
    nodes0: Map<Seq<char>, NodeView>,
    msgs: Seq<NodeMsgView>,
) -> Seq<NodeMsgView>
    decreases msgs.len(),
{
    if msgs.len() == 0 {
        Seq::empty()
    } else {
        let rest = non_conflicting(nodes0, msgs.drop_first());
        if node_entry_conflicts(nodes0, msgs[0]) {
            rest
        } else {
            seq![msgs[0]] + rest
        }
    }
}

/// Two maps that classify every proposed node alike keep the same ones.
proof fn lemma_non_conflicting_congruent(
    n1: Map<Seq<char>, NodeView>,
    n2: Map<Seq<char>, NodeView>,
    msgs: Seq<NodeMsgView>,
)
    requires
        forall|i: int|
            0 <= i < msgs.len() ==> node_entry_conflicts(n1, #[trigger] msgs[i])
                == node_entry_conflicts(n2, msgs[i]),
    ensures
        non_conflicting(n1, msgs) == non_conflicting(n2, msgs),
    decreases msgs.len(),
{
    if msgs.len() != 0 {
        assert forall|i: int| 0 <= i < msgs.drop_first().len() implies node_entry_conflicts(
            n1,
            #[trigger] msgs.drop_first()[i],
        ) == node_entry_conflicts(n2, msgs.drop_first()[i]) by {
            assert(msgs.drop_first()[i] == msgs[i + 1]);
        }
        lemma_non_conflicting_congruent(n1, n2, msgs.drop_first());
    }
}

/// A node fold never reads the conflicts already accumulated: starting
/// from another conflict list changes nothing else, and appends the same
/// number of new conflicts.
proof fn lemma_node_fold_conflicts_irrelevant(
    st: ApplyState,
    c2: Seq<crate::messages::ConflictView>,
    msgs: Seq<NodeMsgView>,
)
    ensures
        ({
            let a = node_apply_fold(st, msgs);
            let b = node_apply_fold(ApplyState { conflicts: c2, ..st }, msgs);
            &&& b.nodes == a.nodes
            &&& b.edges == a.edges
            &&& b.created == a.created
            &&& b.merged == a.merged
            &&& b.error == a.error
            &&& b.conflicts.len() - c2.len() == a.conflicts.len() - st.conflicts.len()
        }),
    decreases msgs.len(),
{
    if msgs.len() != 0 {
        let st1 = node_apply_step(st, msgs[0]);
        let st1b = node_apply_step(ApplyState { conflicts: c2, ..st }, msgs[0]);
        assert(st1b == (ApplyState { conflicts: st1b.conflicts, ..st1 }));
        lemma_node_fold_conflicts_irrelevant(st1, st1b.conflicts, msgs.drop_first());
        assert(node_apply_fold(st, msgs) == node_apply_fold(st1, msgs.drop_first()));
        assert(node_apply_fold(ApplyState { conflicts: c2, ..st }, msgs) == node_apply_fold(
            st1b,
            msgs.drop_first(),
        ));
    }
}

/// An edge fold never reads the conflicts either: starting from another
/// conflict list changes nothing else, and the list itself is preserved.
proof fn lemma_edge_fold_conflicts_irrelevant(
    st: ApplyState,
    c2: Seq<crate::messages::ConflictView>,
    msgs: Seq<EdgeMsgView>,
)
    ensures
        ({
            let a = edge_apply_fold(st, msgs);
            let b = edge_apply_fold(ApplyState { conflicts: c2, ..st }, msgs);
            &&& b.nodes == a.nodes
            &&& b.edges == a.edges
            &&& b.created == a.created
            &&& b.merged == a.merged
            &&& b.error == a.error
            &&& b.conflicts == c2
            &&& a.conflicts == st.conflicts
        }),
    decreases msgs.len(),
{
    if msgs.len() != 0 {
        let st1 = edge_apply_step(st, msgs[0]);
        let st1b = edge_apply_step(ApplyState { conflicts: c2, ..st }, msgs[0]);
        assert(st1b == (ApplyState { conflicts: c2, ..st1 }));
        assert(st1.conflicts == st.conflicts);
        lemma_edge_fold_conflicts_irrelevant(st1, c2, msgs.drop_first());
        assert(edge_apply_fold(st, msgs) == edge_apply_fold(st1, msgs.drop_first()));
        assert(edge_apply_fold(ApplyState { conflicts: c2, ..st }, msgs) == edge_apply_fold(
            st1b,
            msgs.drop_first(),
        ));
    }
}

/// Non-conflicting proposals apply exactly as if the conflicting ones
/// were absent: folding only the non-conflicting nodes of a delta with
/// distinct ids reaches the same map and the same created and merged
/// lists, with nothing to report.
pub proof fn lemma_node_fold_conflicts_as_if_absent(st: ApplyState, msgs: Seq<NodeMsgView>)
    requires
        distinct_node_ids(msgs),
        st.error is None,
        node_apply_fold(st, msgs).error is None,
    ensures
        ({
            let pruned = node_apply_fold(st, non_conflicting(st.nodes, msgs));
            let full = node_apply_fold(st, msgs);
            &&& pruned.nodes == full.nodes
            &&& pruned.edges == full.edges
            &&& pruned.created == full.created
            &&& pruned.merged == full.merged
            &&& pruned.conflicts == st.conflicts
            &&& pruned.error is None
        }),
    decreases msgs.len(),
{
    if msgs.len() != 0 {
        let m0 = msgs[0];
        let st1 = node_apply_step(st, m0);
        let full = node_apply_fold(st, msgs);
        assert(full == node_apply_fold(st1, msgs.drop_first()));
        if st1.error is Some {
            crate::store::lemma_node_fold_error(st1, msgs.drop_first());
            assert(false);
        }
        assert(NodeType::spec_of_code(m0.node_type) is Some);
        assert forall|i: int, j: int| 0 <= i < j < msgs.drop_first().len() implies (
        #[trigger] msgs.drop_first()[i]).id != (#[trigger] msgs.drop_first()[j]).id by {
            assert(msgs.drop_first()[i] == msgs[i + 1]);
            assert(msgs.drop_first()[j] == msgs[j + 1]);
        }
        let kept = non_conflicting(st.nodes, msgs);
        if node_entry_conflicts(st.nodes, m0) {
            // the conflicting head is dropped; the step only recorded it
            assert(st1 == (ApplyState { conflicts: st1.conflicts, ..st }));
            assert(kept == non_conflicting(st.nodes, msgs.drop_first()));
            assert(non_conflicting(st1.nodes, msgs.drop_first()) == kept);
            lemma_node_fold_conflicts_as_if_absent(st1, msgs.drop_first());
            let pruned1 = node_apply_fold(st1, kept);
            lemma_node_fold_conflicts_irrelevant(st1, st.conflicts, kept);
            assert((ApplyState { conflicts: st.conflicts, ..st1 }) == st);
            let pruned = node_apply_fold(st, kept);
            assert(pruned.conflicts.len() == st.conflicts.len());
            lemma_node_fold_monotone(st, kept);
            assert(pruned.conflicts =~= st.conflicts);
        } else {
            // the head stays; both folds take the same first step
            assert(kept == seq![m0] + non_conflicting(st.nodes, msgs.drop_first()));
            assert(kept[0] == m0);
            assert(kept.drop_first() =~= non_conflicting(st.nodes, msgs.drop_first()));
            assert(node_apply_fold(st, kept) == node_apply_fold(st1, kept.drop_first()));
            assert forall|i: int| 0 <= i < msgs.drop_first().len() implies node_entry_conflicts(
                st1.nodes,
                #[trigger] msgs.drop_first()[i],
            ) == node_entry_conflicts(st.nodes, msgs.drop_first()[i]) by {
                assert(msgs.drop_first()[i] == msgs[i + 1]);
                assert(msgs.drop_first()[i].id != m0.id);
                assert(st1.nodes.dom().contains(msgs.drop_first()[i].id)
                    == st.nodes.dom().contains(msgs.drop_first()[i].id));
                assert(st.nodes.dom().contains(msgs.drop_first()[i].id)
                    ==> st1.nodes[msgs.drop_first()[i].id] == st.nodes[msgs.drop_first()[i].id]);
            }
            lemma_non_conflicting_congruent(st1.nodes, st.nodes, msgs.drop_first());
            lemma_node_fold_conflicts_as_if_absent(st1, msgs.drop_first());
            assert(st1.conflicts == st.conflicts);
        }
    } else {
        assert(non_conflicting(st.nodes, msgs) == Seq::<NodeMsgView>::empty());
    }
}

/// The same, end to end over a whole delta: dropping the conflicting
/// node proposals leaves the final graph, the created list and the
/// merged list unchanged, and the pruned delta reports no conflicts.
pub proof fn lemma_delta_conflicts_as_if_absent(s: StoreView, d: DeltaView)
    requires
        distinct_node_ids(d.nodes),
        apply_delta(s, d).error is None,
    ensures
        ({
            let kept = DeltaView {
                nodes: non_conflicting(s.node_map(), d.nodes),
                edges: d.edges,
            };
            let pruned = apply_delta(s, kept);
            let full = apply_delta(s, d);
            &&& pruned.nodes == full.nodes
            &&& pruned.edges == full.edges
            &&& pruned.created == full.created
            &&& pruned.merged == full.merged
            &&& pruned.conflicts == Seq::<crate::messages::ConflictView>::empty()
            &&& pruned.error is None
        }),
{
    let st0 = init_apply(s);
    let stn = node_apply_fold(st0, d.nodes);
    if stn.error is Some {
        crate::store::lemma_edge_fold_error(stn, d.edges);
        assert(false);
    }
    lemma_node_fold_conflicts_as_if_absent(st0, d.nodes);
    let kept_nodes = non_conflicting(s.node_map(), d.nodes);
    assert(non_conflicting(st0.nodes, d.nodes) == kept_nodes);
    let stp = node_apply_fold(st0, kept_nodes);
    assert(stp == (ApplyState { conflicts: Seq::<crate::messages::ConflictView>::empty(), ..stn }))
        by {
        assert(stp.conflicts =~= Seq::<crate::messages::ConflictView>::empty());
    }
    lemma_edge_fold_conflicts_irrelevant(
        stn,
        Seq::<crate::messages::ConflictView>::empty(),
        d.edges,
    );
}

/// Tombstones are isolated: the live view of an incident depends only on
/// the shared graph and that incident's own tombstone sets, so growing
/// another incident's tombstones cannot change it.
pub proof fn lemma_tombstone_isolation(
    s1: StoreView,
    s2: StoreView,
    node_tombs: Seq<Seq<char>>,
    edge_tombs: Seq<EdgeKeyView>,
)
    requires
        s1.nodes == s2.nodes,
        s1.edges == s2.edges,
    ensures
        live_nodes(s1.nodes, node_tombs) == live_nodes(s2.nodes, node_tombs),
        live_edges(s1.edges, edge_tombs, node_tombs) == live_edges(
            s2.edges,
            edge_tombs,
            node_tombs,
        ),
{
}

} // verus!
