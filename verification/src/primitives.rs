//! The functions of std and of `sha2` that the library calls without proof.

use sha2::{Digest, Sha256};
use vstd::prelude::*;
use vstd::utf8::*;

verus! {

/// `String::push` appends the character at the end.
pub assume_specification[ String::push ](text: &mut String, character: char)
    ensures
        final(text)@ == old(text)@.push(character),
;

/// Whether `value` is a Unicode scalar value: a code point outside the surrogate range.
pub open spec fn is_scalar_value(value: u32) -> bool {
    value < 0xD800 || 0xE000 <= value <= 0x10FFFF
}

/// `char::from_u32` gives the character with that scalar value, and `None` for every other
/// number.
pub assume_specification[ char::from_u32 ](value: u32) -> (result: Option<char>)
    ensures
        result is Some <==> is_scalar_value(value),
        result matches Some(character) ==> character as u32 == value,
;

/// The characters that the Debug format of std writes for a character.
pub uninterp spec fn character_debug(character: char) -> Seq<char>;

/// The Debug format of `char`, as the `{:?}` of std's formatting writes it.
#[verifier::external_body]
pub(crate) fn debug_character(character: char) -> (result: String)
    ensures
        result@ == character_debug(character),
{
    format!("{character:?}")
}

/// The characters that the Debug format of std writes for a text.
pub uninterp spec fn text_debug(text: Seq<char>) -> Seq<char>;

/// The Debug format of `str`, as the `{:?}` of std's formatting writes it.
#[verifier::external_body]
pub(crate) fn debug_text(text: &str) -> (result: String)
    ensures
        result@ == text_debug(text@),
{
    format!("{text:?}")
}

/// Whether Unicode calls the character alphabetic or numeric.
pub uninterp spec fn letter_or_number(character: char) -> bool;

/// `char::is_alphanumeric` says whether the character is alphabetic or numeric.
pub assume_specification[ char::is_alphanumeric ](character: char) -> (result: bool)
    ensures
        result == letter_or_number(character),
;

/// The SHA-256 digest of some bytes.
pub uninterp spec fn sha256(bytes: Seq<u8>) -> Seq<u8>;

/// `Sha256::digest` of `sha2` hashes the bytes to the 32 bytes of their SHA-256 digest.
#[verifier::external_body]
pub(crate) fn sha256_digest(bytes: &[u8]) -> (result: Vec<u8>)
    ensures
        result@ == sha256(bytes@),
        result@.len() == 32,
{
    Sha256::digest(bytes).to_vec()
}

/// `std::str::from_utf8` gives the text that the bytes encode where they are valid UTF-8, and an
/// error otherwise.
#[verifier::external_body]
pub(crate) fn utf8_text(bytes: &[u8]) -> (result: Option<&str>)
    ensures
        result is Some <==> valid_utf8(bytes@),
        result matches Some(text) ==> text@ == decode_utf8(bytes@),
{
    std::str::from_utf8(bytes).ok()
}

} // verus!
