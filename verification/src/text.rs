//! Bytes of a line as text.
use vstd::prelude::*;
use vstd::utf8::{decode_utf8, encode_utf8, encode_utf8_decode_utf8, valid_utf8};

verus! {

/// The text that the bytes of a line spell: their characters where the
/// bytes are valid UTF-8, nothing where they are not.
pub open spec fn line_text(bytes: Seq<u8>) -> Option<Seq<char>> {
    if valid_utf8(bytes) {
        Some(decode_utf8(bytes))
    } else {
        None
    }
}

/// `std::str::from_utf8`, with the error dropped. Taken on trust from its
/// documentation: it succeeds exactly on valid UTF-8, and the text it
/// returns is made of the bytes it was given.
#[verifier::external_body]
fn text_from_utf8(bytes: &[u8]) -> (r: Option<&str>)
    ensures
        r is Some <==> valid_utf8(bytes@),
        r matches Some(s) ==> encode_utf8(s@) == bytes@,
{
    std::str::from_utf8(bytes).ok()
}

/// Reads the bytes of a line as text. A line that is not valid UTF-8 has
/// no text.
pub fn decode_line(bytes: &[u8]) -> (text: Option<String>)
    ensures
        match text {
            Some(s) => line_text(bytes@) == Some(s@),
            None => line_text(bytes@) is None,
        },
{
    match text_from_utf8(bytes) {
        Some(text) => {
            proof {
                encode_utf8_decode_utf8(text@);
            }
            Some(text.to_owned())
        },
        None => None,
    }
}

} // verus!
