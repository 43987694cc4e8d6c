//! The closed set of failure kinds of the extraction boundary.

use vstd::prelude::*;
use vstd::string::StringExecFns;

verus! {

/// Every stage of the extraction pipeline reports its failure as one of
/// these kinds. Callers across the boundary only ever observe success or
/// failure; the kind is used for the diagnostic side channel.
#[derive(Clone, Copy, Debug, PartialEq, Eq, Structural)]
pub enum ExtractError {
    /// The caller passed a null path pointer.
    NullInput,
    /// The path bytes are not valid UTF-8 text.
    InvalidEncoding,
    /// The decoder could not open the container file.
    Open,
    /// The container opened but a requested stream could not be parsed.
    Decode,
    /// Decoded text cannot be represented as a null-terminated byte
    /// sequence because it contains an embedded null byte.
    Encoding,
    /// Building the serialized document failed.
    Serialization,
    /// The output buffer could not be allocated.
    Allocation,
    /// An unexpected abort inside the decode path, caught at the
    /// isolation boundary.
    InternalFault,
}

impl ExtractError {
    /// The diagnostic text describing this failure kind.
    pub open spec fn spec_description(self) -> Seq<char> {
        match self {
            ExtractError::NullInput => "input file path is null"@,
            ExtractError::InvalidEncoding => "file path is not valid UTF-8"@,
            ExtractError::Open => "failed to open the table file"@,
            ExtractError::Decode => "failed to decode the requested stream"@,
            ExtractError::Encoding => "decoded text contains an embedded null byte"@,
            ExtractError::Serialization => "failed to serialize the table info document"@,
            ExtractError::Allocation => "failed to allocate the output buffer"@,
            ExtractError::InternalFault => "unexpected fault inside the decode path"@,
        }
    }

    /// Human-readable description of the failure kind, for the diagnostic
    /// log written by the shell around the library.
    pub fn description(&self) -> (r: String)
        ensures
            r@ == self.spec_description(),
    {
        match self {
            ExtractError::NullInput => String::from_str("input file path is null"),
            ExtractError::InvalidEncoding => String::from_str("file path is not valid UTF-8"),
            ExtractError::Open => String::from_str("failed to open the table file"),
            ExtractError::Decode => String::from_str("failed to decode the requested stream"),
            ExtractError::Encoding => String::from_str(
                "decoded text contains an embedded null byte",
            ),
            ExtractError::Serialization => String::from_str(
                "failed to serialize the table info document",
            ),
            ExtractError::Allocation => String::from_str("failed to allocate the output buffer"),
            ExtractError::InternalFault => String::from_str(
                "unexpected fault inside the decode path",
            ),
        }
    }
}

} // verus!
