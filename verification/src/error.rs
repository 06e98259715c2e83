use vstd::prelude::*;

verus! {

/// The kinds of failure the container operations can report.
///
/// Every operation either returns a value or exactly one of these; none of
/// them is retryable, and no partial result is ever handed out.
#[derive(Clone, Copy, Debug, PartialEq, Eq, Structural)]
pub enum PngError {
    /// A chunk type code is malformed: wrong length, a non-alphabetic byte,
    /// or a lowercase reserved-bit position.
    Validation,
    /// A chunk payload is at or over the 2^31-byte limit.
    Capacity,
    /// The buffer does not carry the fixed signature, or a record is
    /// truncated at one of its fixed-width fields.
    Format,
    /// A stored checksum differs from the one recomputed over the record.
    Integrity,
    /// A container holds no chunk at all.
    Empty,
    /// No chunk of the requested type exists.
    NotFound,
    /// A lookup or removal selector is not exactly 4 bytes long.
    Selector,
}

} // verus!
