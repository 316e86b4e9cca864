use vstd::prelude::*;

verus! {

/// Identifies one storage location. The surrounding engine hands keys in as
/// plain integers; this layer never looks inside them, it only compares them.
#[derive(Clone, Copy, PartialEq, Eq, Structural, Debug, Hash)]
pub struct StateKey(pub u64);

/// An event emitted by a transaction. This layer only carries events through
/// and appends them in order; it never inspects them.
#[derive(Clone, Copy, PartialEq, Eq, Structural, Debug)]
pub struct Event(pub u64);

/// The recoverable failures of squashing and materialization. Every squash
/// operation abandons its whole input when one of these comes up; the caller
/// owns the retry/abort decision.
#[derive(Clone, Copy, PartialEq, Eq, Structural, Debug)]
pub enum SquashError {
    /// Applying or merging a delta would push the running value above its bound.
    DeltaOverflow,
    /// Applying or merging a delta would push the running value below zero.
    DeltaUnderflow,
    /// Two deltas on the same key were built against different bounds.
    DeltaLimitMismatch,
    /// A write payload that should hold an aggregator value does not decode.
    PayloadDecode,
    /// A delta targets a key whose concrete write is a deletion.
    ApplyToDeleted,
    /// Two concrete writes to the same key cannot be combined.
    WriteConflict,
    /// The validation policy rejected the finalized change set.
    PolicyRejected,
    /// Materialization found no base value for a delta's key.
    BaseValueMissing,
}

} // verus!
