//! Kana and kanji: classes of characters and the change between the two kana scripts.

use vstd::prelude::*;

use crate::primitives::is_scalar_value;
use crate::text::characters;

verus! {

/// The distance between a katakana and its hiragana.
pub const KANA_DISTANCE: u32 = 0x60;

/// The character at `distance` behind (or before) another one.
pub open spec fn shifted(character: char, distance: int) -> char {
    (character as u32 + distance) as u32 as char
}

// ---------------------------------------------------------------------------
// Classes
// ---------------------------------------------------------------------------

/// A katakana that has a hiragana: ァ to ヶ.
pub open spec fn is_plain_katakana(character: char) -> bool {
    'ァ' <= character <= 'ヶ'
}

/// A katakana iteration mark: ヽ or ヾ.
pub open spec fn is_katakana_mark(character: char) -> bool {
    character == 'ヽ' || character == 'ヾ'
}

/// A hiragana that has a katakana: ぁ to ゖ.
pub open spec fn is_plain_hiragana(character: char) -> bool {
    'ぁ' <= character <= 'ゖ'
}

/// A hiragana iteration mark: ゝ or ゞ.
pub open spec fn is_hiragana_mark(character: char) -> bool {
    character == 'ゝ' || character == 'ゞ'
}

/// A kanji of the unified ideographs, of extension A or of the compatibility ideographs.
pub open spec fn is_ideograph(character: char) -> bool {
    let code = character as u32;
    0x3400 <= code <= 0x4DBF || 0x4E00 <= code <= 0x9FFF || 0xF900 <= code <= 0xFAFF
}

pub fn ideograph(character: char) -> (result: bool)
    ensures
        result == is_ideograph(character),
{
    let code: u32 = character as u32;
    (0x3400 <= code && code <= 0x4DBF) || (0x4E00 <= code && code <= 0x9FFF) || (0xF900 <= code
        && code <= 0xFAFF)
}

/// Whether some character of the text is a kanji.
pub open spec fn has_ideograph(text: Seq<char>) -> bool {
    exists|i: int| 0 <= i < text.len() && is_ideograph(#[trigger] text[i])
}

pub fn any_ideograph(text: &str) -> (result: bool)
    ensures
        result == has_ideograph(text@),
{
    let letters: Vec<char> = characters(text);
    for index in 0..letters.len()
        invariant
            letters@ == text@,
            forall|i: int| 0 <= i < index ==> !is_ideograph(#[trigger] text@[i]),
    {
        if ideograph(letters[index]) {
            assert(is_ideograph(text@[index as int]));
            return true;
        }
    }
    false
}

// ---------------------------------------------------------------------------
// Conversion of one character
// ---------------------------------------------------------------------------

/// The hiragana of a katakana from ァ to ヶ; every other character as it is.
pub open spec fn to_hiragana(character: char) -> char {
    if is_plain_katakana(character) {
        shifted(character, -0x60)
    } else {
        character
    }
}

/// As `to_hiragana`, with the iteration marks ヽ and ヾ changed too.
pub open spec fn to_hiragana_with_marks(character: char) -> char {
    if is_plain_katakana(character) || is_katakana_mark(character) {
        shifted(character, -0x60)
    } else {
        character
    }
}

/// The katakana of a hiragana from ぁ to ゖ; every other character as it is.
pub open spec fn to_katakana(character: char) -> char {
    if is_plain_hiragana(character) {
        shifted(character, 0x60)
    } else {
        character
    }
}

/// As `to_katakana`, with the iteration marks ゝ and ゞ changed too.
pub open spec fn to_katakana_with_marks(character: char) -> char {
    if is_plain_hiragana(character) || is_hiragana_mark(character) {
        shifted(character, 0x60)
    } else {
        character
    }
}

/// A character is known by its scalar value.
pub proof fn same_code_same_character(left: char, right: char)
    requires
        left as u32 == right as u32,
    ensures
        left == right,
{
}

fn lowered(character: char) -> (result: char)
    requires
        is_plain_katakana(character) || is_katakana_mark(character),
    ensures
        result == shifted(character, -0x60),
{
    let code: u32 = character as u32 - KANA_DISTANCE;
    assert(is_scalar_value(code));
    assert(shifted(character, -0x60) as u32 == code);
    match char::from_u32(code) {
        Some(result) => {
            proof {
                same_code_same_character(result, shifted(character, -0x60));
            }
            result
        },
        None => character,
    }
}

fn raised(character: char) -> (result: char)
    requires
        is_plain_hiragana(character) || is_hiragana_mark(character),
    ensures
        result == shifted(character, 0x60),
{
    let code: u32 = character as u32 + KANA_DISTANCE;
    assert(is_scalar_value(code));
    assert(shifted(character, 0x60) as u32 == code);
    match char::from_u32(code) {
        Some(result) => {
            proof {
                same_code_same_character(result, shifted(character, 0x60));
            }
            result
        },
        None => character,
    }
}

pub fn hiragana(character: char) -> (result: char)
    ensures
        result == to_hiragana(character),
{
    if 'ァ' <= character && character <= 'ヶ' {
        lowered(character)
    } else {
        character
    }
}

pub fn hiragana_with_marks(character: char) -> (result: char)
    ensures
        result == to_hiragana_with_marks(character),
{
    if ('ァ' <= character && character <= 'ヶ') || character == 'ヽ' || character == 'ヾ' {
        lowered(character)
    } else {
        character
    }
}

pub fn katakana(character: char) -> (result: char)
    ensures
        result == to_katakana(character),
{
    if 'ぁ' <= character && character <= 'ゖ' {
        raised(character)
    } else {
        character
    }
}

pub fn katakana_with_marks(character: char) -> (result: char)
    ensures
        result == to_katakana_with_marks(character),
{
    if ('ぁ' <= character && character <= 'ゖ') || character == 'ゝ' || character == 'ゞ' {
        raised(character)
    } else {
        character
    }
}

// ---------------------------------------------------------------------------
// Conversion of a text
// ---------------------------------------------------------------------------

/// The text with `to_hiragana` applied to each character.
pub open spec fn hiragana_text(text: Seq<char>) -> Seq<char> {
    text.map_values(|character: char| to_hiragana(character))
}

/// The text with `to_hiragana_with_marks` applied to each character.
pub open spec fn hiragana_text_with_marks(text: Seq<char>) -> Seq<char> {
    text.map_values(|character: char| to_hiragana_with_marks(character))
}

/// The text with `to_katakana` applied to each character.
pub open spec fn katakana_text(text: Seq<char>) -> Seq<char> {
    text.map_values(|character: char| to_katakana(character))
}

/// The text with `to_katakana_with_marks` applied to each character.
pub open spec fn katakana_text_with_marks(text: Seq<char>) -> Seq<char> {
    text.map_values(|character: char| to_katakana_with_marks(character))
}

/// Writes katakana as hiragana.
pub fn katakana_to_hiragana(text: &str) -> (result: String)
    ensures
        result@ == hiragana_text(text@),
{
    let letters: Vec<char> = characters(text);
    let mut result: String = String::new();
    for index in 0..letters.len()
        invariant
            letters@ == text@,
            result@ == hiragana_text(text@).take(index as int),
    {
        result.push(hiragana(letters[index]));
        assert(result@ =~= hiragana_text(text@).take(index + 1));
    }
    assert(result@ =~= hiragana_text(text@));
    result
}

/// Writes katakana and its iteration marks as hiragana.
pub fn katakana_to_hiragana_with_marks(text: &str) -> (result: String)
    ensures
        result@ == hiragana_text_with_marks(text@),
{
    let letters: Vec<char> = characters(text);
    let mut result: String = String::new();
    for index in 0..letters.len()
        invariant
            letters@ == text@,
            result@ == hiragana_text_with_marks(text@).take(index as int),
    {
        result.push(hiragana_with_marks(letters[index]));
        assert(result@ =~= hiragana_text_with_marks(text@).take(index + 1));
    }
    assert(result@ =~= hiragana_text_with_marks(text@));
    result
}

/// Writes hiragana as katakana.
pub fn hiragana_to_katakana(text: &str) -> (result: String)
    ensures
        result@ == katakana_text(text@),
{
    let letters: Vec<char> = characters(text);
    let mut result: String = String::new();
    for index in 0..letters.len()
        invariant
            letters@ == text@,
            result@ == katakana_text(text@).take(index as int),
    {
        result.push(katakana(letters[index]));
        assert(result@ =~= katakana_text(text@).take(index + 1));
    }
    assert(result@ =~= katakana_text(text@));
    result
}

/// Writes hiragana and its iteration marks as katakana.
pub fn full_katakana(text: &str) -> (result: String)
    ensures
        result@ == katakana_text_with_marks(text@),
{
    let letters: Vec<char> = characters(text);
    let mut result: String = String::new();
    for index in 0..letters.len()
        invariant
            letters@ == text@,
            result@ == katakana_text_with_marks(text@).take(index as int),
    {
        result.push(katakana_with_marks(letters[index]));
        assert(result@ =~= katakana_text_with_marks(text@).take(index + 1));
    }
    assert(result@ =~= katakana_text_with_marks(text@));
    result
}

// ---------------------------------------------------------------------------
// Laws
// ---------------------------------------------------------------------------

/// A reading is normalised once and for all: a second conversion changes nothing.
pub proof fn hiragana_conversion_is_idempotent(text: Seq<char>)
    ensures
        hiragana_text(hiragana_text(text)) == hiragana_text(text),
        hiragana_text_with_marks(hiragana_text_with_marks(text)) == hiragana_text_with_marks(text),
{
    assert(hiragana_text(hiragana_text(text)) =~= hiragana_text(text));
    assert(hiragana_text_with_marks(hiragana_text_with_marks(text)) =~= hiragana_text_with_marks(
        text,
    ));
}

/// Katakana that was made from hiragana turns back into it, for every text that holds no
/// katakana of its own.
pub proof fn kana_conversion_turns_back(text: Seq<char>)
    requires
        forall|i: int|
            0 <= i < text.len() ==> !is_plain_katakana(#[trigger] text[i]) && !is_katakana_mark(
                text[i],
            ),
    ensures
        hiragana_text(katakana_text(text)) == text,
        hiragana_text_with_marks(katakana_text_with_marks(text)) == text,
{
    assert forall|i: int| 0 <= i < text.len() implies to_hiragana(to_katakana(#[trigger] text[i]))
        == text[i] && to_hiragana_with_marks(to_katakana_with_marks(text[i])) == text[i] by {
        same_code_same_character(to_hiragana(to_katakana(text[i])), text[i]);
        same_code_same_character(
            to_hiragana_with_marks(to_katakana_with_marks(text[i])),
            text[i],
        );
    }
    assert(hiragana_text(katakana_text(text)) =~= text);
    assert(hiragana_text_with_marks(katakana_text_with_marks(text)) =~= text);
}

/// Katakana from U+30A1 to U+30F6 stand 96 codes behind their hiragana, which stand from U+3041 to
/// U+3096; the marks U+30FD and U+30FE behind U+309D and U+309E. Every other character stays.
pub proof fn kana_stand_ninety_six_codes_apart(character: char)
    ensures
        0x30A1 <= character as u32 <= 0x30F6 ==> to_hiragana(character) as u32 == character as u32
            - 96 && to_hiragana_with_marks(character) as u32 == character as u32 - 96,
        0x30FD <= character as u32 <= 0x30FE ==> to_hiragana(character) == character
            && to_hiragana_with_marks(character) as u32 == character as u32 - 96,
        !(0x30A1 <= character as u32 <= 0x30F6) && !(0x30FD <= character as u32 <= 0x30FE)
            ==> to_hiragana(character) == character && to_hiragana_with_marks(character) == character,
        0x3041 <= character as u32 <= 0x3096 ==> to_katakana(character) as u32 == character as u32
            + 96 && to_katakana_with_marks(character) as u32 == character as u32 + 96,
        0x309D <= character as u32 <= 0x309E ==> to_katakana(character) == character
            && to_katakana_with_marks(character) as u32 == character as u32 + 96,
        !(0x3041 <= character as u32 <= 0x3096) && !(0x309D <= character as u32 <= 0x309E)
            ==> to_katakana(character) == character && to_katakana_with_marks(character) == character,
        is_ideograph(character) <==> '\u{3400}' <= character <= '\u{4DBF}' || '\u{4E00}' <= character
            <= '\u{9FFF}' || '\u{F900}' <= character <= '\u{FAFF}',
{
    if character == '\u{30FD}' || character == '\u{30FE}' {
    } else if character as u32 == 0x30FD {
        same_code_same_character(character, '\u{30FD}');
    } else if character as u32 == 0x30FE {
        same_code_same_character(character, '\u{30FE}');
    } else if character as u32 == 0x309D {
        same_code_same_character(character, '\u{309D}');
    } else if character as u32 == 0x309E {
        same_code_same_character(character, '\u{309E}');
    }
}

/// A conversion changes each character on its own: it keeps the length and the order.
pub proof fn conversions_change_each_character(text: Seq<char>, index: int)
    requires
        0 <= index < text.len(),
    ensures
        hiragana_text(text).len() == text.len() && hiragana_text(text)[index] == to_hiragana(
            text[index],
        ),
        hiragana_text_with_marks(text).len() == text.len() && hiragana_text_with_marks(text)[index]
            == to_hiragana_with_marks(text[index]),
        katakana_text(text).len() == text.len() && katakana_text(text)[index] == to_katakana(
            text[index],
        ),
        katakana_text_with_marks(text).len() == text.len() && katakana_text_with_marks(text)[index]
            == to_katakana_with_marks(text[index]),
{
}

} // verus!
