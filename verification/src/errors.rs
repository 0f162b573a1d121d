//! Error kinds of the core.
//!
//! Conflicts during a node merge are *not* errors: they are reported
//! inside a successful merge result so the caller can correct and retry.

use vstd::prelude::*;

verus! {

/// Failure to decode a wire code into a closed variant.
#[derive(PartialEq, Eq, Structural, Debug)]
pub enum ConversionError {
    /// The wire code is not one of the four real node types.
    InvalidNodeType(i32),
    /// The wire code is not one of the three real edge types.
    InvalidEdgeType(i32),
}

impl ConversionError {
    /// A short description of the failure.
    pub fn message(&self) -> (r: String)
        ensures
            r@ == self.spec_message(),
    {
        match self {
            ConversionError::InvalidNodeType(_) => "invalid node type value".to_owned(),
            ConversionError::InvalidEdgeType(_) => "invalid edge type value".to_owned(),
        }
    }

    /// The description text of each variant.
    pub open spec fn spec_message(&self) -> Seq<char> {
        match self {
            ConversionError::InvalidNodeType(_) => "invalid node type value"@,
            ConversionError::InvalidEdgeType(_) => "invalid edge type value"@,
        }
    }
}

/// Errors from the storage layer.
#[derive(Debug)]
pub enum StoreError {
    /// A read or tombstone operation named an unknown incident id.
    IncidentNotFound(String),
    /// An internal conversion or invariant failure.
    Backend(String),
}

/// Failure of a boundary well-formedness check.
#[derive(Debug)]
pub enum ValidationError {
    EmptyNodeId,
    UnspecifiedNodeType,
    EmptyNodeLabel,
    EmptyEdgeSource,
    EmptyEdgeTarget,
    /// Self-loops are not permitted; carries the offending id.
    SelfLoop(String),
    UnspecifiedEdgeType,
    MissingProvenance,
    EmptyProvenanceSource,
    EmptyProvenanceTrigger,
    EmptyIncidentId,
    EmptyTombstoneSet,
}

impl ValidationError {
    /// A short description of the failure.
    pub fn message(&self) -> (r: String)
        ensures
            r@ == self.spec_message(),
    {
        match self {
            ValidationError::EmptyNodeId => "node id must not be empty".to_owned(),
            ValidationError::UnspecifiedNodeType => "node type must be specified".to_owned(),
            ValidationError::EmptyNodeLabel => "node label must not be empty".to_owned(),
            ValidationError::EmptyEdgeSource => "edge source must not be empty".to_owned(),
            ValidationError::EmptyEdgeTarget => "edge target must not be empty".to_owned(),
            ValidationError::SelfLoop(_) => "self-loops are not permitted".to_owned(),
            ValidationError::UnspecifiedEdgeType => "edge type must be specified".to_owned(),
            ValidationError::MissingProvenance => "at least one provenance entry is required".to_owned(),
            ValidationError::EmptyProvenanceSource => "provenance source must not be empty".to_owned(),
            ValidationError::EmptyProvenanceTrigger => "provenance trigger must not be empty".to_owned(),
            ValidationError::EmptyIncidentId => "incident id must not be empty".to_owned(),
            ValidationError::EmptyTombstoneSet => "at least one tombstone entry is required".to_owned(),
        }
    }

    /// The description text of each variant.
    pub open spec fn spec_message(&self) -> Seq<char> {
        match self {
            ValidationError::EmptyNodeId => "node id must not be empty"@,
            ValidationError::UnspecifiedNodeType => "node type must be specified"@,
            ValidationError::EmptyNodeLabel => "node label must not be empty"@,
            ValidationError::EmptyEdgeSource => "edge source must not be empty"@,
            ValidationError::EmptyEdgeTarget => "edge target must not be empty"@,
            ValidationError::SelfLoop(_) => "self-loops are not permitted"@,
            ValidationError::UnspecifiedEdgeType => "edge type must be specified"@,
            ValidationError::MissingProvenance => "at least one provenance entry is required"@,
            ValidationError::EmptyProvenanceSource => "provenance source must not be empty"@,
            ValidationError::EmptyProvenanceTrigger => "provenance trigger must not be empty"@,
            ValidationError::EmptyIncidentId => "incident id must not be empty"@,
            ValidationError::EmptyTombstoneSet => "at least one tombstone entry is required"@,
        }
    }
}

} // verus!
