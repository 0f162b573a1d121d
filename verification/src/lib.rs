//! A cooperative causal-reasoning graph service core.
//!
//! Agents submit partial hypotheses (nodes and edges with provenance);
//! the library merges them into a global graph under lattice semantics,
//! so that any order or repetition of submissions converges to the same
//! state.  Per-incident tombstone sets mask nodes and edges in incident
//! views without mutating the shared graph.
//!
//! The layers, leaves first:
//! * [`order`] — the total order on strings every container sorts by;
//! * [`provenance`], [`cells`], [`prov_set`] — the lattice cells:
//!   first-write-wins, monotone boolean, set union;
//! * [`node_type`], [`edge_type`], [`node`], [`edge`] — the domain types
//!   and their composite merges;
//! * [`maps`], [`sets`] — sorted maps and sets over those keys;
//! * [`messages`], [`validation`], [`convert`] — the wire shapes, their
//!   well-formedness checks, and their conversions;
//! * [`store`] — the merge engine, the tombstone engine, the view
//!   projector and the store facade;
//! * [`laws`] — the engine's laws: conflict isolation, replay
//!   idempotence, tombstone isolation.

use vstd::prelude::*;

pub mod cells;
pub mod convert;
pub mod edge;
pub mod edge_type;
pub mod errors;
pub mod laws;
pub mod maps;
pub mod messages;
pub mod node;
pub mod node_type;
pub mod order;
pub mod prov_set;
pub mod provenance;
pub mod sets;
pub mod store;
pub mod validation;

verus! {

} // verus!
