//! Extraction boundary for pinball table container files.
//!
//! The library validates a caller-supplied path, turns a decoded table-info
//! record into a JSON document, extracts embedded script text, and marshals
//! either result into a null-terminated byte buffer whose ownership passes
//! to the caller. The binary decoding itself is done by an external decode
//! library; the unverified shell around this crate drives that decoder and
//! hands its records to the verified pipeline here.

pub mod errors;
pub mod output;
pub mod path;
pub mod props;
pub mod table;
pub mod utf8check;
