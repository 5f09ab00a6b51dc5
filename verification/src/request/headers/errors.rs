//! What can go wrong while a header block is scanned.

use vstd::prelude::*;

verus! {

/// The ways in which the scan of a header block ends without headers.
#[derive(Debug, Clone, Copy, PartialEq, Eq, Structural)]
pub enum CreatingHeadersErrors {
    /// The block is not a header block.
    InvalidFormat,
    /// The block holds more lines than can be kept. The scan itself never
    /// reports this: lines beyond the capacity are dropped in silence.
    MaxHeadersSizeReachedOut,
    /// The buffer ends before the block does. Scan again with more bytes.
    ReadMore,
    /// The block is larger than the ceiling allows.
    DangerousInvalidFormat,
}

} // verus!
