//! The ways a read or a transaction can fail.

use vstd::prelude::*;

verus! {

/// Why a read or a transaction stopped.
#[derive(Clone, Copy, Debug, PartialEq, Eq, Structural)]
pub enum EngineError {
    /// The bytes of a chunk are not valid UTF-8.
    InvalidUtf8,
    /// The endpoint failed where a failure is not taken for an idle signal:
    /// while waiting for the first byte of a chunk, or on a write.
    Transport,
    /// A write to the local sink failed.
    LocalSink,
    /// The host reported an event that does not answer the action it was
    /// asked to perform.
    OutOfTurn,
}

} // verus!
