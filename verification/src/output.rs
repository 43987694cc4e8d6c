//! Result marshaling: turning extracted text into an owned, null-terminated
//! byte buffer whose ownership passes to the caller.

use crate::errors::ExtractError;
use vstd::prelude::*;
use vstd::string::StrSliceExecFns;
use vstd::utf8::encode_utf8;

verus! {

/// An owned output buffer: the UTF-8 bytes of the extracted text followed by
/// a single null terminator, with no embedded null byte before it. The
/// unverified shell leaks it across the boundary as an opaque handle; the
/// caller must release it exactly once.
pub struct OutputBuffer {
    bytes: Vec<u8>,
}

impl View for OutputBuffer {
    type V = Seq<u8>;

    closed spec fn view(&self) -> Seq<u8> {
        self.bytes@
    }
}

impl OutputBuffer {
    /// Well-formed: non-empty, null-terminated, and null-free before the
    /// terminator.
    pub open spec fn wf(&self) -> bool {
        &&& self@.len() >= 1
        &&& self@[self@.len() - 1] == 0u8
        &&& forall|i: int| 0 <= i < self@.len() - 1 ==> self@[i] != 0u8
    }

    /// A borrowed look at the buffer's bytes.
    pub fn as_bytes(&self) -> (r: &Vec<u8>)
        ensures
            r@ == self@,
    {
        &self.bytes
    }

    /// Gives up the owned bytes, for the shell to hand across the boundary.
    pub fn into_bytes(self) -> (r: Vec<u8>)
        ensures
            r@ == self@,
    {
        self.bytes
    }
}

/// Marshals extracted text into a null-terminated buffer. Text whose UTF-8
/// encoding contains an embedded null byte cannot be represented and is
/// rejected as `Encoding` rather than truncated; otherwise the buffer holds
/// exactly the text's bytes plus the terminator.
pub fn marshal_output(text: &str) -> (r: Result<OutputBuffer, ExtractError>)
    ensures
        match r {
            Ok(b) => {
                &&& !encode_utf8(text@).contains(0u8)
                &&& b@ == encode_utf8(text@).push(0u8)
                &&& b.wf()
            },
            Err(e) => {
                &&& e == ExtractError::Encoding
                &&& encode_utf8(text@).contains(0u8)
            },
        },
{
    let mut bytes: Vec<u8> = text.as_bytes_vec();
    let n = bytes.len();
    let mut i: usize = 0;
    while i < n
        invariant
            i <= n,
            n == bytes@.len(),
            bytes@ == encode_utf8(text@),
            forall|j: int| 0 <= j < i ==> bytes@[j] != 0u8,
        decreases n - i,
    {
        if bytes[i] == 0 {
            proof {
                assert(encode_utf8(text@)[i as int] == 0u8);
            }
            return Err(ExtractError::Encoding);
        }
        i = i + 1;
    }
    bytes.push(0);
    Ok(OutputBuffer { bytes })
}

/// The marshaling step of the game-data extractor: the decoded script source
/// text, byte for byte, as a null-terminated buffer.
pub fn gamedata_code_output(code: &str) -> (r: Result<OutputBuffer, ExtractError>)
    ensures
        match r {
            Ok(b) => {
                &&& !encode_utf8(code@).contains(0u8)
                &&& b@ == encode_utf8(code@).push(0u8)
                &&& b.wf()
            },
            Err(e) => {
                &&& e == ExtractError::Encoding
                &&& encode_utf8(code@).contains(0u8)
            },
        },
{
    marshal_output(code)
}

} // verus!
