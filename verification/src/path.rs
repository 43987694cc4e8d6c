//! Path marshaling: turning caller-supplied raw path bytes into a validated,
//! UTF-8-checked path value.

use crate::errors::ExtractError;
use crate::utf8check::check_utf8;
use vstd::prelude::*;
use vstd::utf8::{decode_utf8, encode_utf8, encode_utf8_decode_utf8, valid_utf8};

verus! {

/// A validated table-file path. The text is known to be the UTF-8 decoding
/// of the byte sequence the caller supplied.
pub struct TablePath {
    text: String,
}

impl View for TablePath {
    type V = Seq<char>;

    closed spec fn view(&self) -> Seq<char> {
        self.text@
    }
}

impl TablePath {
    /// The path text, for handing to the file-opening shell.
    pub fn as_str(&self) -> (r: &str)
        ensures
            r@ == self@,
    {
        self.text.as_str()
    }
}

/// Relies on `String::from_utf8`: bytes that are valid UTF-8 convert to the
/// string whose UTF-8 encoding is exactly those bytes.
#[verifier::external_body]
fn bytes_into_string(bytes: Vec<u8>) -> (r: String)
    requires
        valid_utf8(bytes@),
    ensures
        encode_utf8(r@) == bytes@,
{
    match String::from_utf8(bytes) {
        Ok(s) => s,
        Err(_) => String::new(),
    }
}

/// Validates a caller-supplied path: a missing pointer is rejected as
/// `NullInput`, bytes that are not valid UTF-8 as `InvalidEncoding`, and
/// anything else becomes a `TablePath` carrying exactly the given bytes as
/// text. No file access happens here.
pub fn marshal_path(input: Option<Vec<u8>>) -> (r: Result<TablePath, ExtractError>)
    ensures
        match r {
            Ok(p) => input matches Some(b) && valid_utf8(b@) && encode_utf8(p@) == b@ && p@
                == decode_utf8(b@),
            Err(e) => match input {
                None => e == ExtractError::NullInput,
                Some(b) => !valid_utf8(b@) && e == ExtractError::InvalidEncoding,
            },
        },
{
    match input {
        None => Err(ExtractError::NullInput),
        Some(bytes) => {
            if check_utf8(&bytes) {
                let text = bytes_into_string(bytes);
                proof {
                    encode_utf8_decode_utf8(text@);
                }
                Ok(TablePath { text })
            } else {
                Err(ExtractError::InvalidEncoding)
            }
        },
    }
}

} // verus!
