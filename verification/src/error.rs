//! Errors of the library.

use vstd::prelude::*;

verus! {

/// Why an MDF file could not be produced or read.
#[derive(Debug, Clone, Copy, PartialEq, Eq, Structural)]
pub enum MdfError {
    /// A channel group would hold more records than its 64-bit record counter can count.
    RecordCountOverflow,
    /// The file would be larger than a 64-bit file offset can address.
    FileTooLarge,
    /// A block does not have the identifier it must have at that place.
    BlockIdMismatch,
    /// The bytes end before the block they are read as.
    UnexpectedEof,
    /// A group or channel index is out of range, or no channel has that name.
    NotFound,
    /// The request is not supported for this channel or data block.
    Unsupported,
    /// The requested record range runs past the last record.
    RecordRangeOutOfBounds,
    /// The data source could not be read.
    Io,
    /// The index holds sizes or offsets that no well-formed file has (a record of no
    /// bytes, a data block shorter than its header, offsets past 64 bits).
    MalformedIndex,
}

} // verus!
