//! Command lines: which options are given, with which values, and numbers by their bits.

use vstd::prelude::*;
use vstd::string::*;

use crate::text::{characters, read_count, same_text, texts, unsigned_value};

verus! {

/// The character sequences of a list of names.
pub open spec fn names(values: Seq<&str>) -> Seq<Seq<char>> {
    Seq::new(values.len(), |i: int| values[i]@)
}

/// An option among the arguments: where it stands, and where its value stands if it takes one.
#[derive(Clone, Copy, Debug, PartialEq, Eq, Structural)]
pub struct Given {
    pub at: usize,
    pub value: Option<usize>,
}

/// Why reading the arguments stopped: at their end, at an argument that is no option, or at an
/// option whose value is missing.
#[derive(Clone, Copy, Debug, PartialEq, Eq, Structural)]
pub enum Stop {
    End,
    Unknown(usize),
    Missing(usize),
}

/// Whether the argument is taken as a value on its own: it does not start with a hyphen.
pub open spec fn is_positional(argument: Seq<char>) -> bool {
    argument.len() == 0 || argument[0] != '-'
}

/// The options that are given from `index` on, and where reading stops. The options in
/// `valued` take the next argument as their value, those in `flags` none. With `positional` an
/// argument without hyphen stands for itself.
pub open spec fn given_from(
    arguments: Seq<Seq<char>>,
    valued: Seq<Seq<char>>,
    flags: Seq<Seq<char>>,
    positional: bool,
    index: int,
) -> (Seq<Given>, Stop)
    decreases arguments.len() - index,
{
    if index < 0 || index >= arguments.len() {
        (Seq::empty(), Stop::End)
    } else if valued.contains(arguments[index]) {
        if index + 1 < arguments.len() {
            let (rest, stop) = given_from(arguments, valued, flags, positional, index + 2);
            (seq![Given { at: index as usize, value: Some((index + 1) as usize) }] + rest, stop)
        } else {
            (Seq::empty(), Stop::Missing(index as usize))
        }
    } else if flags.contains(arguments[index]) || (positional && is_positional(arguments[index])) {
        let (rest, stop) = given_from(arguments, valued, flags, positional, index + 1);
        (seq![Given { at: index as usize, value: None }] + rest, stop)
    } else {
        (Seq::empty(), Stop::Unknown(index as usize))
    }
}

/// Options and values stand within the arguments, each behind the one before.
pub proof fn given_options_are_arguments(
    arguments: Seq<Seq<char>>,
    valued: Seq<Seq<char>>,
    flags: Seq<Seq<char>>,
    positional: bool,
    index: int,
)
    requires
        0 <= index,
        arguments.len() <= usize::MAX,
    ensures
        forall|i: int|
            0 <= i < given_from(arguments, valued, flags, positional, index).0.len() ==> {
                let item = #[trigger] given_from(arguments, valued, flags, positional, index).0[i];
                &&& index <= item.at < arguments.len()
                &&& item.value is Some <==> valued.contains(arguments[item.at as int])
                &&& item.value matches Some(value) ==> value == item.at + 1 && value
                    < arguments.len()
            },
        match given_from(arguments, valued, flags, positional, index).1 {
            Stop::End => true,
            Stop::Unknown(at) => index <= at < arguments.len() && !valued.contains(
                arguments[at as int],
            ),
            Stop::Missing(at) => at == arguments.len() - 1 && valued.contains(
                arguments[at as int],
            ),
        },
    decreases arguments.len() - index,
{
    if index < arguments.len() {
        if valued.contains(arguments[index]) {
            if index + 1 < arguments.len() {
                given_options_are_arguments(arguments, valued, flags, positional, index + 2);
            }
        } else if flags.contains(arguments[index]) || (positional && is_positional(
            arguments[index],
        )) {
            given_options_are_arguments(arguments, valued, flags, positional, index + 1);
        }
    }
}

fn is_name(values: &[&str], text: &str) -> (result: bool)
    ensures
        result == names(values@).contains(text@),
{
    for index in 0..values.len()
        invariant
            forall|i: int| 0 <= i < index ==> (#[trigger] values@[i])@ != text@,
    {
        if same_text(values[index], text) {
            assert(names(values@)[index as int] == text@);
            return true;
        }
    }
    assert forall|i: int| 0 <= i < names(values@).len() implies names(values@)[i] != text@ by {
        assert(names(values@)[i] == values@[i]@);
    }
    false
}

/// The options that are given from `start` on, and where reading stops.
pub fn given_options(
    arguments: &[String],
    valued: &[&str],
    flags: &[&str],
    positional: bool,
    start: usize,
) -> (result: (Vec<Given>, Stop))
    ensures
        (result.0@, result.1) == given_from(
            texts(arguments@),
            names(valued@),
            names(flags@),
            positional,
            start as int,
        ),
        forall|i: int|
            0 <= i < result.0@.len() ==> {
                &&& (#[trigger] result.0@[i]).at < arguments@.len()
                &&& result.0@[i].value matches Some(value) ==> value < arguments@.len()
                &&& result.0@[i].value is Some <==> names(valued@).contains(
                    arguments@[result.0@[i].at as int]@,
                )
            },
        result.1 matches Stop::Unknown(at) ==> at < arguments@.len(),
        result.1 matches Stop::Missing(at) ==> at < arguments@.len(),
{
    let count: usize = arguments.len();
    let ghost all = texts(arguments@);
    let ghost whole = given_from(all, names(valued@), names(flags@), positional, start as int);
    proof {
        given_options_are_arguments(
            all,
            names(valued@),
            names(flags@),
            positional,
            start as int,
        );
        assert forall|i: int| 0 <= i < arguments@.len() implies all[i] == arguments@[i]@ by {}
    }
    let mut items: Vec<Given> = Vec::new();
    let mut index: usize = start;
    assert(items@ + given_from(all, names(valued@), names(flags@), positional, index as int).0
        =~= whole.0);
    while index < count
        invariant
            count == arguments@.len(),
            all == texts(arguments@),
            whole == given_from(all, names(valued@), names(flags@), positional, start as int),
            forall|i: int|
                0 <= i < whole.0.len() ==> {
                    &&& (#[trigger] whole.0[i]).at < count
                    &&& whole.0[i].value matches Some(value) ==> value < count
                    &&& whole.0[i].value is Some <==> names(valued@).contains(
                        all[whole.0[i].at as int],
                    )
                },
            forall|i: int| 0 <= i < count ==> all[i] == arguments@[i]@,
            items@ + given_from(all, names(valued@), names(flags@), positional, index as int).0
                == whole.0,
            given_from(all, names(valued@), names(flags@), positional, index as int).1 == whole.1,
        decreases count - index,
    {
        let argument: &str = arguments[index].as_str();
        assert(all[index as int] == argument@);
        let ghost before = items@;
        if is_name(valued, argument) {
            if index + 1 >= count {
                assert(items@ =~= whole.0);
                return (items, Stop::Missing(index));
            }
            let item: Given = Given { at: index, value: Some(index + 1) };
            items.push(item);
            proof {
                let rest = given_from(
                    all,
                    names(valued@),
                    names(flags@),
                    positional,
                    index + 2,
                ).0;
                assert(items@ + rest =~= before + (seq![item] + rest));
            }
            index += 2;
        } else if is_name(flags, argument) || (positional && without_hyphen(argument)) {
            let item: Given = Given { at: index, value: None };
            items.push(item);
            proof {
                let rest = given_from(
                    all,
                    names(valued@),
                    names(flags@),
                    positional,
                    index + 1,
                ).0;
                assert(items@ + rest =~= before + (seq![item] + rest));
            }
            index += 1;
        } else {
            assert(items@ =~= whole.0);
            return (items, Stop::Unknown(index));
        }
    }
    assert(items@ =~= whole.0);
    (items, Stop::End)
}

fn without_hyphen(argument: &str) -> (result: bool)
    ensures
        result == is_positional(argument@),
{
    let letters: Vec<char> = characters(argument);
    letters.len() == 0 || letters[0] != '-'
}

// ---------------------------------------------------------------------------
// Values
// ---------------------------------------------------------------------------

/// What the text of an argument reads as a number of double and of single precision: the bits
/// of the number, if it is one.
#[derive(Clone, Copy, Debug, PartialEq, Eq, Structural)]
pub struct NumberBits {
    pub double: Option<u64>,
    pub single: Option<u32>,
}

/// The sign bit of a double.
pub const DOUBLE_SIGN: u64 = 0x8000_0000_0000_0000;

/// The bits of the infinite double.
pub const DOUBLE_INFINITY: u64 = 0x7FF0_0000_0000_0000;

/// The bits of one as a double.
pub const DOUBLE_ONE: u64 = 0x3FF0_0000_0000_0000;

/// The sign bit of a single.
pub const SINGLE_SIGN: u32 = 0x8000_0000;

/// The bits of the infinite single.
pub const SINGLE_INFINITY: u32 = 0x7F80_0000;

/// Whether the bits are those of a finite double that is not below zero. Positive numbers are
/// ordered as their bits; the negative zero is not below zero.
pub open spec fn is_finite_non_negative(bits: u64) -> bool {
    bits < DOUBLE_INFINITY || bits == DOUBLE_SIGN
}

/// Whether the bits are those of a finite double.
pub open spec fn is_finite(bits: u64) -> bool {
    bits < DOUBLE_INFINITY || DOUBLE_SIGN <= bits < DOUBLE_SIGN + DOUBLE_INFINITY
}

/// Whether the bits are those of a double from zero to one.
pub open spec fn is_between_zero_and_one(bits: u64) -> bool {
    bits <= DOUBLE_ONE || bits == DOUBLE_SIGN
}

/// Whether the bits are those of a finite single that is not below zero.
pub open spec fn is_finite_non_negative_single(bits: u32) -> bool {
    bits < SINGLE_INFINITY || bits == SINGLE_SIGN
}

pub fn finite_non_negative(bits: u64) -> (result: bool)
    ensures
        result == is_finite_non_negative(bits),
{
    bits < DOUBLE_INFINITY || bits == DOUBLE_SIGN
}

pub fn finite(bits: u64) -> (result: bool)
    ensures
        result == is_finite(bits),
{
    bits < DOUBLE_INFINITY || (DOUBLE_SIGN <= bits && bits < 0xFFF0_0000_0000_0000)
}

pub fn between_zero_and_one(bits: u64) -> (result: bool)
    ensures
        result == is_between_zero_and_one(bits),
{
    bits <= DOUBLE_ONE || bits == DOUBLE_SIGN
}

pub fn finite_non_negative_single(bits: u32) -> (result: bool)
    ensures
        result == is_finite_non_negative_single(bits),
{
    bits < SINGLE_INFINITY || bits == SINGLE_SIGN
}

/// The count that a text stands for, if it fits the machine.
pub open spec fn count_value(text: Seq<char>) -> Option<usize> {
    match unsigned_value(text) {
        Some(value) => if value <= usize::MAX {
            Some(value as usize)
        } else {
            None
        },
        None => None,
    }
}

pub fn count_of(text: &str) -> (result: Option<usize>)
    ensures
        result == count_value(text@),
{
    read_count(text)
}

/// The text of an option that is followed by the rest of a message.
pub fn message(name: &str, rest: &str) -> (result: String)
    ensures
        result@ == name@ + rest@,
{
    let mut result: String = name.to_owned();
    result.append(rest);
    result
}

/// Where the next argument stands behind an option and its value.
pub open spec fn behind_given(item: Given) -> int {
    if item.value is Some {
        item.at + 2
    } else {
        item.at + 1
    }
}

/// No argument is passed over: the first option stands where reading begins, each one directly behind
/// the one before and its value, and reading stops directly behind the last one.
pub proof fn no_argument_is_passed_over(
    arguments: Seq<Seq<char>>,
    valued: Seq<Seq<char>>,
    flags: Seq<Seq<char>>,
    positional: bool,
    index: int,
)
    requires
        0 <= index <= arguments.len() <= usize::MAX,
    ensures
        ({
            let (items, stop) = given_from(arguments, valued, flags, positional, index);
            let reached = if items.len() == 0 {
                index
            } else {
                behind_given(items.last())
            };
            &&& items.len() > 0 ==> items[0].at == index
            &&& forall|i: int|
                0 < i < items.len() ==> (#[trigger] items[i]).at == behind_given(items[i - 1])
            &&& match stop {
                Stop::End => reached == arguments.len(),
                Stop::Unknown(at) => reached == at && at < arguments.len() && !valued.contains(
                    arguments[at as int],
                ) && !flags.contains(arguments[at as int]) && (positional ==> arguments[at as int].len()
                    > 0 && arguments[at as int][0] == '-'),
                Stop::Missing(at) => reached == at && at == arguments.len() - 1 && valued.contains(
                    arguments[at as int],
                ),
            }
        }),
    decreases arguments.len() - index,
{
    if index < arguments.len() {
        let (items, stop) = given_from(arguments, valued, flags, positional, index);
        if items.len() > 0 {
            let next = behind_given(items[0]);
            no_argument_is_passed_over(arguments, valued, flags, positional, next);
            let rest = given_from(arguments, valued, flags, positional, next).0;
            assert(items =~= seq![items[0]] + rest);
            assert forall|i: int| 0 < i < items.len() implies (#[trigger] items[i]).at
                == behind_given(items[i - 1]) by {
                assert(items[i] == rest[i - 1]);
                if i > 1 {
                    assert(items[i - 1] == rest[i - 2]);
                }
            }
            if rest.len() > 0 {
                assert(items.last() == rest.last());
            }
        }
    }
}

/// A count is read from its digits, if it fits the machine.
pub proof fn counts_are_read_from_their_digits(value: nat)
    ensures
        value <= usize::MAX ==> count_value(crate::text::decimal(value)) == Some(value as usize),
        value > usize::MAX ==> count_value(crate::text::decimal(value)) is None,
{
    crate::text::decimal_reads_back(value);
}

/// The bits of zero, one, the greatest finite numbers and the infinities: what counts as finite, as not
/// below zero, and as lying between zero and one.
pub proof fn numbers_are_told_by_their_bits(bits: u64, single: u32)
    ensures
        is_between_zero_and_one(bits) ==> is_finite_non_negative(bits),
        is_finite_non_negative(bits) ==> is_finite(bits),
        is_between_zero_and_one(bits) <==> bits <= 4_607_182_418_800_017_408 || bits
            == 9_223_372_036_854_775_808,
        is_finite_non_negative(bits) <==> bits < 9_218_868_437_227_405_312 || bits
            == 9_223_372_036_854_775_808,
        is_finite(bits) <==> bits % 9_223_372_036_854_775_808 < 9_218_868_437_227_405_312,
        is_finite_non_negative_single(single) <==> single < 2_139_095_040 || single
            == 2_147_483_648,
{
}

} // verus!
