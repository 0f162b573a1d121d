//! Provenance records: who proposed a fact, and what triggered the proposal.
//!
//! Identity is `(source, trigger)` only.  The timestamp is informational
//! metadata excluded from equality, ordering and hashing, so a set of
//! provenance records deduplicates by `(source, trigger)` and keeps the
//! first-observed timestamp on a collision.

use vstd::prelude::*;

verus! {

/// Mathematical value of a [`Provenance`] record.
pub ghost struct ProvView {
    pub source: Seq<char>,
    pub trigger: Seq<char>,
    pub seconds: int,
    pub nanos: int,
}

impl ProvView {
    /// The identity of a record: `(source, trigger)`, timestamp excluded.
    pub open spec fn id(self) -> (Seq<char>, Seq<char>) {
        (self.source, self.trigger)
    }
}

/// An attribution record tracking who proposed an operation and when.
#[derive(Debug)]
pub struct Provenance {
    pub source: String,
    pub trigger: String,
    /// Informational only; not part of identity.
    pub timestamp_seconds: i64,
    /// Informational only; not part of identity.
    pub timestamp_nanos: i32,
}

impl View for Provenance {
    type V = ProvView;

    open spec fn view(&self) -> ProvView {
        ProvView {
            source: self.source@,
            trigger: self.trigger@,
            seconds: self.timestamp_seconds as int,
            nanos: self.timestamp_nanos as int,
        }
    }
}

impl Provenance {
    /// A record with the given identity and a zero timestamp.
    pub fn new(source: String, trigger: String) -> (r: Self)
        ensures
            r@ == (ProvView { source: source@, trigger: trigger@, seconds: 0, nanos: 0 }),
    {
        Provenance { source, trigger, timestamp_seconds: 0, timestamp_nanos: 0 }
    }

    /// The same record with the timestamp replaced.
    pub fn with_timestamp(self, seconds: i64, nanos: i32) -> (r: Self)
        ensures
            r@ == (ProvView {
                source: self@.source,
                trigger: self@.trigger,
                seconds: seconds as int,
                nanos: nanos as int,
            }),
    {
        Provenance { timestamp_seconds: seconds, timestamp_nanos: nanos, ..self }
    }

    /// A copy of the record, all fields kept.
    pub fn duplicate(&self) -> (r: Self)
        ensures
            r@ == self@,
    {
        Provenance {
            source: self.source.clone(),
            trigger: self.trigger.clone(),
            timestamp_seconds: self.timestamp_seconds,
            timestamp_nanos: self.timestamp_nanos,
        }
    }
}

impl PartialEq for Provenance {
    /// Equality considers `(source, trigger)` only.
    fn eq(&self, other: &Self) -> (r: bool) {
        self.source == other.source && self.trigger == other.trigger
    }
}

impl Eq for Provenance {}

impl vstd::std_specs::cmp::PartialEqSpecImpl for Provenance {
    open spec fn obeys_eq_spec() -> bool {
        true
    }

    open spec fn eq_spec(&self, other: &Self) -> bool {
        self@.id() == other@.id()
    }
}

} // verus!
