//! Errors of the storage layer.
use vstd::prelude::*;

verus! {

/// Every failure the storage layer reports.
#[derive(Debug, Clone, Copy, PartialEq, Eq, Structural)]
pub enum StoreError {
    /// A required configuration option is absent or unusable.
    ConfigMissing,
    /// The device could not be opened.
    DeviceOpenFailure,
    /// The device size could not be read from the size query's output.
    DeviceSizeQueryFailure,
    /// The header record could not be turned into text.
    HeaderEncodingFailure,
    /// The header body is not UTF-8 or not a well-formed record.
    HeaderDecodingFailure,
    /// A read, write or seek failed, or fell outside the device.
    IOFailure,
    /// No free range, or no identifier, is left for the request.
    OutOfSpace,
    /// No catalog entry has the given key.
    NotFound,
    /// A graph of the given name already exists.
    DuplicateName,
}

} // verus!
