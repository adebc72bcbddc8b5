//! Strings in JSON, as the native interface writes them.

use crate::private_corpus::{digit_of, hex_digit};
use crate::text::{characters, control, is_control};
use vstd::prelude::*;
use vstd::string::*;

verus! {

/// What stands for a character inside a JSON string: an escape for quotes, backslashes and
/// control characters, the character itself otherwise.
pub open spec fn escaped(character: char) -> Seq<char> {
    if character == '"' {
        seq!['\\', '"']
    } else if character == '\\' {
        seq!['\\', '\\']
    } else if character == '\n' {
        seq!['\\', 'n']
    } else if character == '\r' {
        seq!['\\', 'r']
    } else if character == '\t' {
        seq!['\\', 't']
    } else if is_control(character) {
        seq![
            '\\',
            'u',
            '0',
            '0',
            hex_digit(character as int / 16),
            hex_digit(character as int % 16),
        ]
    } else {
        seq![character]
    }
}

/// What stands for a text between the quotes of a JSON string.
pub open spec fn escaped_text(value: Seq<char>) -> Seq<char>
    decreases value.len(),
{
    if value.len() == 0 {
        Seq::empty()
    } else {
        escaped(value[0]) + escaped_text(value.skip(1))
    }
}

/// A text as a JSON string.
pub open spec fn json_string(value: Seq<char>) -> Seq<char> {
    seq!['"'] + escaped_text(value) + seq!['"']
}

/// A text as a JSON string, or `null`.
pub open spec fn json_optional(value: Option<Seq<char>>) -> Seq<char> {
    match value {
        Some(value) => json_string(value),
        None => "null"@,
    }
}

/// The value of a lower-case hexadecimal digit.
pub open spec fn hex_value(digit: char) -> Option<int> {
    if '0' <= digit <= '9' {
        Some(digit as u32 - 48)
    } else if 'a' <= digit <= 'f' {
        Some(digit as u32 - 87)
    } else {
        None
    }
}

/// The character with a small code.
pub open spec fn small_character(code: int) -> char {
    code as u8 as char
}

/// The first character of a JSON string and what follows it, for the escapes that JSON shares
/// with this writer. `None` where the text starts with no such character.
pub open spec fn read_character(text: Seq<char>) -> Option<(char, Seq<char>)> {
    if text.len() == 0 || text[0] == '"' {
        None
    } else if text[0] != '\\' {
        Some((text[0], text.skip(1)))
    } else if text.len() < 2 {
        None
    } else if text[1] == '"' || text[1] == '\\' {
        Some((text[1], text.skip(2)))
    } else if text[1] == 'n' {
        Some(('\n', text.skip(2)))
    } else if text[1] == 'r' {
        Some(('\r', text.skip(2)))
    } else if text[1] == 't' {
        Some(('\t', text.skip(2)))
    } else if text[1] == 'u' && text.len() >= 6 && text[2] == '0' && text[3] == '0' && hex_value(
        text[4],
    ) is Some && hex_value(text[5]) is Some {
        Some((small_character(hex_value(text[4])->0 * 16 + hex_value(text[5])->0), text.skip(6)))
    } else {
        None
    }
}

/// The rest of a JSON string whose opening quote was read, and what follows its closing quote.
pub open spec fn read_rest(text: Seq<char>) -> Option<(Seq<char>, Seq<char>)>
    decreases text.len(),
{
    if text.len() > 0 && text[0] == '"' {
        Some((Seq::empty(), text.skip(1)))
    } else {
        match read_character(text) {
            None => None,
            Some(read) => if read.1.len() >= text.len() {
                None
            } else {
                match read_rest(read.1) {
                    None => None,
                    Some(rest) => Some((seq![read.0] + rest.0, rest.1)),
                }
            },
        }
    }
}

/// The JSON string that a text starts with, and what follows it.
pub open spec fn read_string(text: Seq<char>) -> Option<(Seq<char>, Seq<char>)> {
    if text.len() > 0 && text[0] == '"' {
        read_rest(text.skip(1))
    } else {
        None
    }
}

proof fn control_codes_read_back(character: char)
    requires
        is_control(character),
    ensures
        hex_value(hex_digit(character as int / 16)) == Some(character as int / 16),
        hex_value(hex_digit(character as int % 16)) == Some(character as int % 16),
        small_character(character as u32 as int) == character,
{
    let code = character as u32;
    crate::kana::same_code_same_character(small_character(code as int), character);
}

proof fn characters_read_back(character: char, rest: Seq<char>)
    ensures
        read_character(escaped(character) + rest) == Some((character, rest)),
        escaped(character).len() > 0,
        escaped(character)[0] != '"',
{
    let text = escaped(character) + rest;
    assert(text.skip(escaped(character).len() as int) =~= rest);
    if is_control(character) {
        control_codes_read_back(character);
    }
}

proof fn rests_read_back(value: Seq<char>, rest: Seq<char>)
    ensures
        read_rest(escaped_text(value) + seq!['"'] + rest) == Some((value, rest)),
    decreases value.len(),
{
    let text = escaped_text(value) + seq!['"'] + rest;
    if value.len() == 0 {
        assert(text.skip(1) =~= rest);
        assert(value =~= Seq::empty());
    } else {
        let tail = escaped_text(value.skip(1)) + seq!['"'] + rest;
        rests_read_back(value.skip(1), rest);
        assert(text =~= escaped(value[0]) + tail);
        characters_read_back(value[0], tail);
        assert(seq![value[0]] + value.skip(1) =~= value);
    }
}

/// A JSON string reads back as the text that it was written for, whatever follows it.
pub proof fn written_strings_read_back(value: Seq<char>, rest: Seq<char>)
    ensures
        read_string(json_string(value) + rest) == Some((value, rest)),
{
    rests_read_back(value, rest);
    let text = json_string(value) + rest;
    assert(text.skip(1) =~= escaped_text(value) + seq!['"'] + rest);
}

/// A JSON string holds no control character: a response is one line.
pub proof fn written_strings_hold_no_control(value: Seq<char>)
    ensures
        !crate::text::has_control(json_string(value)),
{
    escapes_hold_no_control(value);
}

proof fn escape_holds_no_control(character: char)
    ensures
        forall|i: int|
            0 <= i < escaped(character).len() ==> !is_control(#[trigger] escaped(character)[i]),
{
    if is_control(character) {
        let code = character as u32;
        assert(hex_digit(code as int / 16) as u32 == 48 + code / 16);
    }
}

proof fn escapes_hold_no_control(value: Seq<char>)
    ensures
        !crate::text::has_control(escaped_text(value)),
    decreases value.len(),
{
    if value.len() > 0 {
        escapes_hold_no_control(value.skip(1));
        let first = escaped(value[0]);
        let rest = escaped_text(value.skip(1));
        assert forall|i: int| 0 <= i < first.len() implies !is_control(#[trigger] first[i]) by {
            escape_holds_no_control(value[0]);
        }
        let all = first + rest;
        assert forall|i: int| 0 <= i < all.len() implies !is_control(#[trigger] all[i]) by {
            if i < first.len() {
                assert(all[i] == first[i]);
            } else {
                assert(all[i] == rest[i - first.len()]);
            }
        }
    }
}

fn write_escaped(output: &mut String, character: char)
    ensures
        final(output)@ == old(output)@ + escaped(character),
{
    let ghost start = output@;
    if character == '"' || character == '\\' {
        output.push('\\');
        output.push(character);
    } else if character == '\n' {
        output.push('\\');
        output.push('n');
    } else if character == '\r' {
        output.push('\\');
        output.push('r');
    } else if character == '\t' {
        output.push('\\');
        output.push('t');
    } else if control(character) {
        let code: u8 = character as u8;
        output.push('\\');
        output.push('u');
        output.push('0');
        output.push('0');
        output.push(digit_of(code / 16));
        output.push(digit_of(code % 16));
    } else {
        output.push(character);
    }
    assert(output@ =~= start + escaped(character));
}

/// Writes a text as a JSON string.
pub fn write_json_string(output: &mut String, value: &str)
    ensures
        final(output)@ == old(output)@ + json_string(value@),
{
    let ghost start = output@;
    let letters: Vec<char> = characters(value);
    output.push('"');
    assert(letters@.skip(0) =~= letters@);
    for index in 0..letters.len()
        invariant
            letters@ == value@,
            output@ + escaped_text(letters@.skip(index as int)) == start + seq!['"']
                + escaped_text(value@),
    {
        let ghost before = output@;
        let ghost rest = letters@.skip(index as int);
        assert(rest.skip(1) =~= letters@.skip(index + 1));
        assert(rest[0] == letters@[index as int]);
        write_escaped(output, letters[index]);
        assert(output@ + escaped_text(letters@.skip(index + 1)) =~= before + escaped_text(rest));
    }
    assert(letters@.skip(letters@.len() as int) =~= Seq::<char>::empty());
    assert(output@ =~= start + seq!['"'] + escaped_text(value@));
    output.push('"');
    assert(output@ =~= start + json_string(value@));
}

/// The text that an optional value holds.
pub open spec fn optional_view(value: Option<&str>) -> Option<Seq<char>> {
    match value {
        Some(text) => Some(text@),
        None => None,
    }
}

/// Writes a text as a JSON string, and `null` where there is none.
pub fn write_optional_json_string(output: &mut String, value: Option<&str>)
    ensures
        final(output)@ == old(output)@ + json_optional(optional_view(value)),
{
    match value {
        Some(text) => {
            write_json_string(output, text);
        },
        None => {
            output.append("null");
        },
    }
}

/// Quotes, backslashes and control characters are written as the escapes of JSON; all others as they
/// are.
pub proof fn escapes_are_those_of_json(character: char)
    ensures
        character == '"' ==> escaped(character) == seq!['\\', '"'],
        character == '\\' ==> escaped(character) == seq!['\\', '\\'],
        character == '\n' ==> escaped(character) == seq!['\\', 'n'],
        character == '\r' ==> escaped(character) == seq!['\\', 'r'],
        character == '\t' ==> escaped(character) == seq!['\\', 't'],
        character as u32 >= 0x20 && character != '"' && character != '\\' && !(0x7F <= character as u32
            <= 0x9F) ==> escaped(character) == seq![character],
        ((character as u32) < 0x20 && character != '\n' && character != '\r' && character != '\t') || (
        0x7F <= character as u32 <= 0x9F) ==> {
            let written = escaped(character);
            &&& written.len() == 6
            &&& written.take(4) == seq!['\\', 'u', '0', '0']
            &&& hex_value(written[4]) is Some && hex_value(written[5]) is Some
            &&& 16 * hex_value(written[4])->0 + hex_value(written[5])->0 == character as u32
        },
{
    if is_control(character) {
        control_codes_read_back(character);
        let written = escaped(character);
        if character != '\n' && character != '\r' && character != '\t' {
            assert(written.take(4) =~= seq!['\\', 'u', '0', '0']);
        }
    }
}

} // verus!
