use vstd::prelude::*;

verus! {

/// Why an invocation failed. Every failure is fatal: the pass aborts on the first
/// error and no partial success is ever reported.
#[derive(Debug, PartialEq, Eq)]
pub enum FetchError {
    /// A required input is missing or malformed; the payload names it.
    ConfigurationError(String),
    /// The byte source failed or reported a non-success status.
    TransferError(String),
    /// The declared content type is not recognized for decompression; the payload
    /// is the offending content type.
    UnsupportedFormat(String),
    /// The filesystem refused to create a directory of the destination tree.
    DirectoryCreationFailed(String),
    /// The archive could not be read or an entry could not be placed.
    ExtractionFailed(String),
    /// The verbatim (non-unpack) copy to the output path failed.
    WriteFailed(String),
}

} // verus!
