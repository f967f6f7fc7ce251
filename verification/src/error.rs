//! What the decoders and the fixed-length accessor report.

use vstd::prelude::*;

verus! {

/// Why a byte string was rejected by a decoder. Positions count from zero.
#[derive(Clone, Copy, Debug, PartialEq, Eq)]
pub enum DecodeError {
    /// The input is not the canonical encoding of one list, or the list does
    /// not have as many members as the record has fields.
    MalformedList,
    /// The member at `index` does not have the shape of the field it stands
    /// for; all members before it do.
    FieldShape { index: usize },
    /// In a receipt, the member at `log` of the log list is not a list of
    /// three members; all logs before it are sound.
    MalformedLog { log: usize },
    /// In a receipt, the log at `log` has a member at `index` of the wrong
    /// shape; all logs before it are sound.
    LogFieldShape { log: usize, index: usize },
}

/// A variable-length field was asked for as a fixed-size value that it does
/// not have the length of.
#[derive(Clone, Copy, Debug, PartialEq, Eq)]
pub struct LengthError {
    pub expected: usize,
    pub actual: usize,
}

} // verus!
