//! The legacy 8-bit Korean wire encoding, behind named conversion
//! functions.
//!
//! What the encoder and decoder return is a function of their input
//! alone, so the results are given names ([`euckr_bytes`], [`euckr_str`])
//! that the codec's contracts speak of.  On ASCII-only input both are the
//! identity on the underlying bytes, which their source shows directly.

use vstd::prelude::*;

verus! {

/// Largest input the conversion functions accept, keeping their size
/// calculations inside `usize`.
pub const MAX_TEXT_LEN: usize = 0x0fff_ffff;

/// The bytes the legacy encoding produces for a text.  Unmappable
/// characters become numeric character references, so this never fails.
pub uninterp spec fn euckr_bytes(s: Seq<char>) -> Seq<u8>;

/// The text the legacy encoding's strict decoder produces for a byte
/// string, or `None` when the bytes are malformed.
pub uninterp spec fn euckr_str(b: Seq<u8>) -> Option<Seq<char>>;

/// All characters are ASCII.
pub open spec fn ascii_chars(s: Seq<char>) -> bool {
    forall|i: int| 0 <= i < s.len() ==> (s[i] as u32) < 0x80
}

/// All bytes are ASCII.
pub open spec fn ascii_bytes(b: Seq<u8>) -> bool {
    forall|i: int| 0 <= i < b.len() ==> b[i] < 0x80
}

/// Encodes a text into the legacy encoding.
///
/// Relies on `encoding_rs::EUC_KR.encode`: the result depends on the
/// characters alone, and ASCII-only input is returned as its own bytes
/// (the encoder returns the input buffer unchanged in that case).
#[verifier::external_body]
pub fn encode(text: &str) -> (r: Vec<u8>)
    requires
        text@.len() <= MAX_TEXT_LEN,
    ensures
        r@ == euckr_bytes(text@),
        ascii_chars(text@) ==> r@ == text@.map_values(|c: char| c as u8),
{
    encoding_rs::EUC_KR.encode(text).0.into_owned()
}

/// Decodes bytes from the legacy encoding, with no replacement
/// characters: malformed input yields `None`.
///
/// Relies on `encoding_rs::EUC_KR.decode_without_bom_handling_and_without_replacement`:
/// the result depends on the bytes alone, and ASCII-only input decodes to
/// its own characters (the decoder returns the input buffer unchanged in
/// that case).
#[verifier::external_body]
pub fn decode(data: &[u8]) -> (r: Option<String>)
    requires
        data@.len() <= MAX_TEXT_LEN,
    ensures
        match euckr_str(data@) {
            None => r is None,
            Some(s) => r is Some && r->0@ == s,
        },
        ascii_bytes(data@) ==> r is Some && r->0@ == data@.map_values(|b: u8| b as char),
{
    match encoding_rs::EUC_KR.decode_without_bom_handling_and_without_replacement(data) {
        Some(s) => Some(s.into_owned()),
        None => None,
    }
}

} // verus!
