//! The failures that decoding, projection and export can report.
use vstd::prelude::*;

verus! {

/// Why an operation on an FCS file did not succeed.
#[derive(Debug, Clone, Copy, PartialEq, Eq, Structural)]
pub enum FcsError {
    /// The fixed header is too short, not text, or holds a bad offset.
    MalformedHeader,
    /// The metadata segment is out of bounds, not text, or has no usable delimiter.
    MalformedMetadata,
    /// The channel count or the event count is missing or zero.
    InvalidDataset,
    /// The data type or bit width is not one this decoder handles.
    UnsupportedDataType,
    /// The data segment is out of bounds or shorter than the declared events.
    TruncatedData,
    /// A requested channel is not in the dataset.
    ChannelNotFound,
    /// Two channels requested together have different lengths.
    LengthMismatch,
    /// Reading or writing a file failed.
    IoError,
    /// The export format token is not recognised.
    UnsupportedExportFormat,
}

} // verus!
