//! The failures the engine can report. Every operation that can fail returns
//! one of these; none of the library's verified functions panics.

use vstd::prelude::*;

verus! {

/// `NotFound` — a referenced task id is absent from the collection, or the
/// backing file does not exist (the expected condition of a first run).
/// `CorruptData` — persisted content that does not parse back into a valid
/// collection; never silently folded into an empty one.
/// `IOFailure` — a read or write that the platform refused.
#[derive(Clone, Copy, PartialEq, Eq, Structural, Debug)]
pub enum TaskError {
    NotFound,
    CorruptData,
    IOFailure,
}

} // verus!
