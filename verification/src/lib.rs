//! A declarative HTTP API client core.
//!
//! Endpoint descriptors (verb, URL template, header templates, body kind,
//! response kind, parameter list) are validated once by the generator, which
//! emits bound operations; every call then runs the request-assembly
//! pipeline against the immutable operation and the caller's arguments.

pub mod assemble;
pub mod client;
pub mod descriptor;
pub mod encode;
pub mod generate;
pub mod json;
pub mod response;
pub mod template;
pub mod value;

use vstd::prelude::*;

verus! {

/// Holds whether a byte sequence contains a given byte.
pub open spec fn contains_byte(s: Seq<u8>, b: u8) -> bool {
    exists|i: int| 0 <= i < s.len() && s[i] == b
}

} // verus!
