//! What a reader finds in JSON: the members of an object and the elements of a list.

use crate::json::{escaped, escaped_text, json_string, read_string, written_strings_read_back};
use crate::private_corpus::hex_digit;
use crate::text::{is_control, is_digits};
use vstd::prelude::*;
use vstd::string::*;

verus! {

// ---------------------------------------------------------------------------
// The reader
// ---------------------------------------------------------------------------

/// The value that a text starts with, and what follows it. A value ends before a comma or a closing
/// bracket that belongs to none of its own brackets; inside a string nothing ends it.
pub open spec fn first_value(text: Seq<char>, depth: nat, inside: bool) -> (Seq<char>, Seq<char>)
    decreases text.len(),
{
    if text.len() == 0 {
        (Seq::empty(), Seq::empty())
    } else if inside {
        if text[0] == '\\' && text.len() >= 2 {
            let (value, rest) = first_value(text.skip(2), depth, true);
            (text.take(2) + value, rest)
        } else {
            let (value, rest) = first_value(text.skip(1), depth, text[0] != '"');
            (text.take(1) + value, rest)
        }
    } else if text[0] == '[' || text[0] == '{' {
        let (value, rest) = first_value(text.skip(1), depth + 1, false);
        (text.take(1) + value, rest)
    } else if depth == 0 && (text[0] == ',' || text[0] == ']' || text[0] == '}') {
        (Seq::empty(), text)
    } else {
        let closes = text[0] == ']' || text[0] == '}';
        let outer = if closes {
            (depth - 1) as nat
        } else {
            depth
        };
        let (value, rest) = first_value(text.skip(1), outer, text[0] == '"');
        (text.take(1) + value, rest)
    }
}

/// The elements of a list whose opening bracket was read, and what follows its closing bracket.
pub open spec fn read_elements(text: Seq<char>) -> Option<(Seq<Seq<char>>, Seq<char>)>
    decreases text.len(),
{
    if text.len() == 0 {
        None
    } else if text[0] == ']' {
        Some((Seq::empty(), text.skip(1)))
    } else {
        let (value, rest) = first_value(text, 0, false);
        if rest.len() == 0 || rest.len() >= text.len() {
            None
        } else if rest[0] == ']' {
            Some((seq![value], rest.skip(1)))
        } else if rest[0] == ',' {
            match read_elements(rest.skip(1)) {
                Some(more) => Some((seq![value] + more.0, more.1)),
                None => None,
            }
        } else {
            None
        }
    }
}

/// The elements of a list.
#[verifier::opaque]
pub open spec fn elements(text: Seq<char>) -> Option<Seq<Seq<char>>> {
    if text.len() > 0 && text[0] == '[' {
        match read_elements(text.skip(1)) {
            Some(found) => if found.1.len() == 0 {
                Some(found.0)
            } else {
                None
            },
            None => None,
        }
    } else {
        None
    }
}

/// The name of a member and its value as it is written.
pub type Member = (Seq<char>, Seq<char>);

/// The members of an object whose opening bracket was read, and what follows its closing bracket.
pub open spec fn read_members(text: Seq<char>) -> Option<(Seq<Member>, Seq<char>)>
    decreases text.len(),
{
    match read_string(text) {
        None => None,
        Some(named) => if named.1.len() == 0 || named.1[0] != ':' {
            None
        } else {
            let (value, rest) = first_value(named.1.skip(1), 0, false);
            if rest.len() == 0 || rest.len() >= text.len() {
                None
            } else if rest[0] == '}' {
                Some((seq![(named.0, value)], rest.skip(1)))
            } else if rest[0] == ',' {
                match read_members(rest.skip(1)) {
                    Some(more) => Some((seq![(named.0, value)] + more.0, more.1)),
                    None => None,
                }
            } else {
                None
            }
        },
    }
}

/// The members of an object, in order.
#[verifier::opaque]
pub open spec fn members(text: Seq<char>) -> Option<Seq<Member>> {
    if text.len() > 0 && text[0] == '{' {
        match read_members(text.skip(1)) {
            Some(found) => if found.1.len() == 0 {
                Some(found.0)
            } else {
                None
            },
            None => None,
        }
    } else {
        None
    }
}

// ---------------------------------------------------------------------------
// Values that a reader passes
// ---------------------------------------------------------------------------

/// Whether a reader passes the text as a whole inside of at least so many brackets.
pub open spec fn passes(value: Seq<char>, least: nat) -> bool {
    forall|rest: Seq<char>, depth: nat|
        depth >= least ==> #[trigger] first_value(value + rest, depth, false) == (
            value + first_value(rest, depth, false).0,
            first_value(rest, depth, false).1,
        )
}

/// Whether the character stands for itself outside of strings.
pub open spec fn is_plain_json(character: char) -> bool {
    character != '"' && character != ',' && character != '[' && character != ']' && character != '{'
        && character != '}'
}

proof fn one_character_passes(character: char, least: nat)
    requires
        is_plain_json(character) || (character == ',' && least > 0),
    ensures
        passes(seq![character], least),
{
    assert forall|rest: Seq<char>, depth: nat| depth >= least implies #[trigger] first_value(
        seq![character] + rest,
        depth,
        false,
    ) == (
        seq![character] + first_value(rest, depth, false).0,
        first_value(rest, depth, false).1,
    ) by {
        let text = seq![character] + rest;
        assert(text.skip(1) =~= rest);
        assert(text.take(1) =~= seq![character]);
    }
}

proof fn both_pass(left: Seq<char>, right: Seq<char>, least: nat)
    requires
        passes(left, least),
        passes(right, least),
    ensures
        passes(left + right, least),
{
    assert forall|rest: Seq<char>, depth: nat| depth >= least implies #[trigger] first_value(
        (left + right) + rest,
        depth,
        false,
    ) == (
        (left + right) + first_value(rest, depth, false).0,
        first_value(rest, depth, false).1,
    ) by {
        assert((left + right) + rest =~= left + (right + rest));
        assert(first_value(left + (right + rest), depth, false) == (
            left + first_value(right + rest, depth, false).0,
            first_value(right + rest, depth, false).1,
        ));
        assert(first_value(right + rest, depth, false) == (
            right + first_value(rest, depth, false).0,
            first_value(rest, depth, false).1,
        ));
        assert(left + (right + first_value(rest, depth, false).0) =~= (left + right) + first_value(
            rest,
            depth,
            false,
        ).0);
    }
}

proof fn plain_texts_pass(value: Seq<char>)
    requires
        forall|i: int| 0 <= i < value.len() ==> is_plain_json(#[trigger] value[i]),
    ensures
        passes(value, 0),
    decreases value.len(),
{
    if value.len() == 0 {
        assert forall|rest: Seq<char>, depth: nat| true implies #[trigger] first_value(
            value + rest,
            depth,
            false,
        ) == (
            value + first_value(rest, depth, false).0,
            first_value(rest, depth, false).1,
        ) by {
            assert(value + rest =~= rest);
            assert(value + first_value(rest, depth, false).0 =~= first_value(rest, depth, false).0);
        }
    } else {
        let shorter = value.drop_last();
        assert forall|i: int| 0 <= i < shorter.len() implies is_plain_json(#[trigger] shorter[i]) by {
            assert(shorter[i] == value[i]);
        }
        plain_texts_pass(shorter);
        assert(is_plain_json(value[value.len() - 1]));
        one_character_passes(value.last(), 0);
        both_pass(shorter, seq![value.last()], 0);
        assert(shorter + seq![value.last()] =~= value);
    }
}

proof fn an_escape_passes(character: char, rest: Seq<char>, depth: nat)
    ensures
        first_value(escaped(character) + rest, depth, true) == (
            escaped(character) + first_value(rest, depth, true).0,
            first_value(rest, depth, true).1,
        ),
{
    let text = escaped(character) + rest;
    let (value, more) = first_value(rest, depth, true);
    if character == '"' || character == '\\' || character == '\n' || character == '\r' || character
        == '\t' {
        assert(text.skip(2) =~= rest);
        assert(text.take(2) =~= escaped(character));
    } else if is_control(character) {
        let code = character as int;
        let first = hex_digit(code / 16);
        let second = hex_digit(code % 16);
        assert(first != '"' && first != '\\' && second != '"' && second != '\\');
        let last = seq![second] + rest;
        let third = seq![first] + last;
        let zero = seq!['0'] + third;
        let zeros = seq!['0'] + zero;
        assert(last.skip(1) =~= rest && last.take(1) =~= seq![second]);
        assert(third.skip(1) =~= last && third.take(1) =~= seq![first]);
        assert(zero.skip(1) =~= third && zero.take(1) =~= seq!['0']);
        assert(zeros.skip(1) =~= zero && zeros.take(1) =~= seq!['0']);
        assert(text.skip(2) =~= zeros);
        assert(text.take(2) =~= seq!['\\', 'u']);
        assert(first_value(last, depth, true) == (seq![second] + value, more));
        assert(first_value(third, depth, true) == (seq![first] + (seq![second] + value), more));
        let ending = seq![first] + (seq![second] + value);
        assert(first_value(zero, depth, true) == (seq!['0'] + ending, more));
        assert(first_value(zeros, depth, true) == (seq!['0'] + (seq!['0'] + ending), more));
        assert(first_value(text, depth, true) == (
            seq!['\\', 'u'] + (seq!['0'] + (seq!['0'] + ending)),
            more,
        ));
        assert(first_value(text, depth, true).0 =~= escaped(character) + value);
    } else {
        assert(text.skip(1) =~= rest);
        assert(text.take(1) =~= escaped(character));
    }
}

proof fn a_string_is_passed_to_its_end(value: Seq<char>, rest: Seq<char>, depth: nat)
    ensures
        first_value(escaped_text(value) + seq!['"'] + rest, depth, true) == (
            escaped_text(value) + seq!['"'] + first_value(rest, depth, false).0,
            first_value(rest, depth, false).1,
        ),
    decreases value.len(),
{
    let text = escaped_text(value) + seq!['"'] + rest;
    if value.len() == 0 {
        assert(text =~= seq!['"'] + rest);
        assert(text.skip(1) =~= rest);
        assert(text.take(1) =~= seq!['"']);
        assert(escaped_text(value) + seq!['"'] =~= seq!['"']);
    } else {
        let tail = escaped_text(value.skip(1)) + seq!['"'] + rest;
        a_string_is_passed_to_its_end(value.skip(1), rest, depth);
        an_escape_passes(value[0], tail, depth);
        assert(text =~= escaped(value[0]) + tail);
        assert(escaped(value[0]) + (escaped_text(value.skip(1)) + seq!['"'] + first_value(
            rest,
            depth,
            false,
        ).0) =~= escaped_text(value) + seq!['"'] + first_value(rest, depth, false).0);
    }
}

proof fn strings_pass(value: Seq<char>)
    ensures
        passes(json_string(value), 0),
        json_string(value).len() > 0,
        json_string(value)[0] == '"',
{
    assert forall|rest: Seq<char>, depth: nat| true implies #[trigger] first_value(
        json_string(value) + rest,
        depth,
        false,
    ) == (
        json_string(value) + first_value(rest, depth, false).0,
        first_value(rest, depth, false).1,
    ) by {
        let text = json_string(value) + rest;
        a_string_is_passed_to_its_end(value, rest, depth);
        assert(text.skip(1) =~= escaped_text(value) + seq!['"'] + rest);
        assert(text.take(1) =~= seq!['"']);
        assert(seq!['"'] + (escaped_text(value) + seq!['"'] + first_value(rest, depth, false).0)
            =~= json_string(value) + first_value(rest, depth, false).0);
    }
}

proof fn passing_goes_on_inside(value: Seq<char>, least: nat, more: nat)
    requires
        passes(value, least),
        least <= more,
    ensures
        passes(value, more),
{
}

proof fn brackets_pass(body: Seq<char>, open: char, close: char)
    requires
        passes(body, 1),
        open == '[' || open == '{',
        close == ']' || close == '}',
    ensures
        passes(seq![open] + body + seq![close], 0),
{
    let value = seq![open] + body + seq![close];
    assert forall|rest: Seq<char>, depth: nat| true implies #[trigger] first_value(
        value + rest,
        depth,
        false,
    ) == (
        value + first_value(rest, depth, false).0,
        first_value(rest, depth, false).1,
    ) by {
        let text = value + rest;
        let end = seq![close] + rest;
        let deeper = depth + 1;
        assert(text.skip(1) =~= body + end);
        assert(text.take(1) =~= seq![open]);
        assert(end.skip(1) =~= rest);
        assert(end.take(1) =~= seq![close]);
        assert(first_value(end, deeper, false) == (
            seq![close] + first_value(rest, depth, false).0,
            first_value(rest, depth, false).1,
        ));
        assert(first_value(body + end, deeper, false) == (
            body + first_value(end, deeper, false).0,
            first_value(end, deeper, false).1,
        ));
        assert(seq![open] + (body + (seq![close] + first_value(rest, depth, false).0)) =~= value
            + first_value(rest, depth, false).0);
    }
}

// ---------------------------------------------------------------------------
// Lists
// ---------------------------------------------------------------------------

/// Whether the text can be an element of a list or the value of a member.
#[verifier::opaque]
pub open spec fn is_json_value(value: Seq<char>) -> bool {
    passes(value, 0) && value.len() > 0 && value[0] != ']' && value[0] != ','
}

/// Some values with commas between them.
pub open spec fn with_commas(values: Seq<Seq<char>>) -> Seq<char>
    decreases values.len(),
{
    if values.len() == 0 {
        Seq::empty()
    } else if values.len() == 1 {
        values[0]
    } else {
        values[0] + seq![','] + with_commas(values.drop_first())
    }
}

proof fn values_with_commas_pass(values: Seq<Seq<char>>)
    requires
        forall|i: int| 0 <= i < values.len() ==> is_json_value(#[trigger] values[i]),
    ensures
        passes(with_commas(values), 1),
    decreases values.len(),
{
    reveal(is_json_value);
    reveal(elements);
    reveal(members);
    if values.len() == 0 {
        plain_texts_pass(with_commas(values));
        passing_goes_on_inside(with_commas(values), 0, 1);
    } else {
        assert(is_json_value(values[0]));
        passing_goes_on_inside(values[0], 0, 1);
        if values.len() > 1 {
            let rest = values.drop_first();
            assert forall|i: int| 0 <= i < rest.len() implies is_json_value(#[trigger] rest[i]) by {
                assert(rest[i] == values[i + 1]);
            }
            values_with_commas_pass(rest);
            one_character_passes(',', 1);
            both_pass(values[0], seq![','], 1);
            both_pass(values[0] + seq![','], with_commas(rest), 1);
        }
    }
}

proof fn listed_values_are_elements(values: Seq<Seq<char>>, rest: Seq<char>)
    requires
        forall|i: int| 0 <= i < values.len() ==> is_json_value(#[trigger] values[i]),
    ensures
        read_elements(with_commas(values) + seq![']'] + rest) == Some((values, rest)),
    decreases values.len(),
{
    reveal(is_json_value);
    reveal(elements);
    reveal(members);
    let text = with_commas(values) + seq![']'] + rest;
    if values.len() == 0 {
        assert(text =~= seq![']'] + rest);
        assert(text.skip(1) =~= rest);
        assert(values =~= Seq::empty());
    } else {
        let value = values[0];
        assert(is_json_value(value));
        let more = values.drop_first();
        let end = if values.len() == 1 {
            seq![']'] + rest
        } else {
            seq![','] + (with_commas(more) + seq![']'] + rest)
        };
        assert(text =~= value + end);
        assert(first_value(value + end, 0, false) == (
            value + first_value(end, 0, false).0,
            first_value(end, 0, false).1,
        ));
        assert(first_value(end, 0, false) == (Seq::<char>::empty(), end));
        assert(value + Seq::<char>::empty() =~= value);
        assert(text[0] == value[0]);
        if values.len() == 1 {
            assert(end.skip(1) =~= rest);
            assert(seq![value] =~= values);
        } else {
            assert forall|i: int| 0 <= i < more.len() implies is_json_value(#[trigger] more[i]) by {
                assert(more[i] == values[i + 1]);
            }
            listed_values_are_elements(more, rest);
            assert(end.skip(1) =~= with_commas(more) + seq![']'] + rest);
            assert(seq![value] + more =~= values);
        }
    }
}

/// A list is a value, and a reader finds its elements.
pub(crate) proof fn a_list_has_its_elements(values: Seq<Seq<char>>)
    requires
        forall|i: int| 0 <= i < values.len() ==> is_json_value(#[trigger] values[i]),
    ensures
        elements(seq!['['] + with_commas(values) + seq![']']) == Some(values),
        is_json_value(seq!['['] + with_commas(values) + seq![']']),
{
    reveal(is_json_value);
    reveal(elements);
    reveal(members);
    let nothing = Seq::<char>::empty();
    let text = seq!['['] + with_commas(values) + seq![']'];
    listed_values_are_elements(values, nothing);
    assert(text.skip(1) =~= with_commas(values) + seq![']'] + nothing);
    values_with_commas_pass(values);
    brackets_pass(with_commas(values), '[', ']');
}

/// What a value is made of: a string, digits, or other plain characters.
pub(crate) proof fn simple_values(value: Seq<char>)
    requires
        value.len() > 0,
        forall|i: int| 0 <= i < value.len() ==> is_plain_json(#[trigger] value[i]),
    ensures
        is_json_value(value),
{
    reveal(is_json_value);
    plain_texts_pass(value);
    assert(is_plain_json(value[0]));
}

pub(crate) proof fn digit_values(value: Seq<char>)
    requires
        is_digits(value),
    ensures
        is_json_value(value),
{
    assert forall|i: int| 0 <= i < value.len() implies is_plain_json(#[trigger] value[i]) by {
        assert('0' <= value[i] <= '9');
    }
    simple_values(value);
}

pub(crate) proof fn string_values(text: Seq<char>)
    ensures
        is_json_value(json_string(text)),
{
    reveal(is_json_value);
    strings_pass(text);
}

// ---------------------------------------------------------------------------
// Objects
// ---------------------------------------------------------------------------

/// A member as it is written.
pub open spec fn member_text(member: Member) -> Seq<char> {
    json_string(member.0) + seq![':'] + member.1
}

/// Some members as they are written.
pub open spec fn member_texts(found: Seq<Member>) -> Seq<Seq<char>> {
    Seq::new(found.len(), |i: int| member_text(found[i]))
}

proof fn written_members_are_read(found: Seq<Member>, rest: Seq<char>)
    requires
        found.len() > 0,
        forall|i: int| 0 <= i < found.len() ==> is_json_value((#[trigger] found[i]).1),
    ensures
        read_members(with_commas(member_texts(found)) + seq!['}'] + rest) == Some((found, rest)),
    decreases found.len(),
{
    reveal(is_json_value);
    reveal(elements);
    reveal(members);
    let texts = member_texts(found);
    let text = with_commas(texts) + seq!['}'] + rest;
    let (name, value) = found[0];
    assert(is_json_value(found[0].1));
    let more = found.drop_first();
    assert(texts.drop_first() =~= member_texts(more));
    let end = if found.len() == 1 {
        seq!['}'] + rest
    } else {
        seq![','] + (with_commas(member_texts(more)) + seq!['}'] + rest)
    };
    let behind = seq![':'] + (value + end);
    assert(text =~= json_string(name) + behind);
    written_strings_read_back(name, behind);
    assert(behind.skip(1) =~= value + end);
    assert(first_value(value + end, 0, false) == (
        value + first_value(end, 0, false).0,
        first_value(end, 0, false).1,
    ));
    assert(first_value(end, 0, false) == (Seq::<char>::empty(), end));
    assert(value + Seq::<char>::empty() =~= value);
    if found.len() == 1 {
        assert(end.skip(1) =~= rest);
        assert(seq![(name, value)] =~= found);
    } else {
        assert forall|i: int| 0 <= i < more.len() implies is_json_value((#[trigger] more[i]).1) by {
            assert(more[i] == found[i + 1]);
        }
        written_members_are_read(more, rest);
        assert(end.skip(1) =~= with_commas(member_texts(more)) + seq!['}'] + rest);
        assert(seq![(name, value)] + more =~= found);
    }
}

proof fn written_members_pass(found: Seq<Member>)
    requires
        forall|i: int| 0 <= i < found.len() ==> is_json_value((#[trigger] found[i]).1),
    ensures
        passes(with_commas(member_texts(found)), 1),
{
    reveal(is_json_value);
    reveal(elements);
    reveal(members);
    let texts = member_texts(found);
    assert forall|i: int| 0 <= i < texts.len() implies is_json_value(#[trigger] texts[i]) by {
        let member = found[i];
        assert(is_json_value(found[i].1));
        strings_pass(member.0);
        one_character_passes(':', 0);
        both_pass(json_string(member.0), seq![':'], 0);
        both_pass(json_string(member.0) + seq![':'], member.1, 0);
        assert(texts[i] == member_text(member));
    }
    values_with_commas_pass(texts);
}

/// An object is a value, and a reader finds its members in order.
pub(crate) proof fn an_object_has_its_members(found: Seq<Member>)
    requires
        found.len() > 0,
        forall|i: int| 0 <= i < found.len() ==> is_json_value((#[trigger] found[i]).1),
    ensures
        members(seq!['{'] + with_commas(member_texts(found)) + seq!['}']) == Some(found),
        is_json_value(seq!['{'] + with_commas(member_texts(found)) + seq!['}']),
{
    reveal(is_json_value);
    reveal(elements);
    reveal(members);
    let nothing = Seq::<char>::empty();
    let text = seq!['{'] + with_commas(member_texts(found)) + seq!['}'];
    written_members_are_read(found, nothing);
    assert(text.skip(1) =~= with_commas(member_texts(found)) + seq!['}'] + nothing);
    written_members_pass(found);
    brackets_pass(with_commas(member_texts(found)), '{', '}');
}

/// A name without quotes, backslashes and control characters is written as it is.
pub(crate) proof fn a_plain_name_is_written_as_it_is(name: Seq<char>)
    requires
        forall|i: int|
            0 <= i < name.len() ==> #[trigger] name[i] != '"' && name[i] != '\\' && !is_control(
                name[i],
            ),
    ensures
        json_string(name) == seq!['"'] + name + seq!['"'],
{
    plain_characters_are_not_escaped(name);
}

proof fn plain_characters_are_not_escaped(name: Seq<char>)
    requires
        forall|i: int|
            0 <= i < name.len() ==> #[trigger] name[i] != '"' && name[i] != '\\' && !is_control(
                name[i],
            ),
    ensures
        escaped_text(name) == name,
    decreases name.len(),
{
    if name.len() > 0 {
        let rest = name.skip(1);
        assert forall|i: int| 0 <= i < rest.len() implies #[trigger] rest[i] != '"' && rest[i]
            != '\\' && !is_control(rest[i]) by {
            assert(rest[i] == name[i + 1]);
        }
        assert(name[0] != '"');
        plain_characters_are_not_escaped(rest);
        assert(escaped(name[0]) =~= seq![name[0]]);
        assert(seq![name[0]] + rest =~= name);
    } else {
        assert(escaped_text(name) =~= name);
    }
}

/// Texts with the same JSON string are the same.
pub proof fn json_strings_tell_texts_apart(left: Seq<char>, right: Seq<char>)
    requires
        json_string(left) == json_string(right),
    ensures
        left == right,
{
    written_strings_read_back(left, Seq::empty());
    written_strings_read_back(right, Seq::empty());
}

} // verus!
