//! The options of a recall evaluation.

use vstd::prelude::*;
use vstd::string::*;

use crate::arguments::{
    count_of, count_value, finite_non_negative, given_from, given_options, is_finite_non_negative,
    message, names, Given, NumberBits, Stop,
};
use crate::evaluation_options::{agrees, optional_text, push_text};
use crate::primitives::{debug_text, text_debug};
use crate::text::{joined, read_unsigned, same_text, texts, unsigned_value};

verus! {

/// How to call the recall evaluation.
pub const RECALL_USAGE: &'static str =
    "usage: slime-recall --input PATH [--dictionary PATH ...] [--details N] \
     [--max-missing N] [--min-recovered N] [--max-regressed N] \
     [--max-top1-regressed N] [--max-top1-changed N] [--max-p95-ms N] \
     [--max-dictionary-bytes N] [--json]\n\
     input format: reading<TAB>expected_surface\n\
     dictionary format: reading<TAB>surface[<TAB>cost]";

/// The options that take a value.
pub const RECALL_VALUED: [&'static str; 10] = [
    "--input",
    "--dictionary",
    "--details",
    "--max-missing",
    "--min-recovered",
    "--max-regressed",
    "--max-top1-regressed",
    "--max-top1-changed",
    "--max-p95-ms",
    "--max-dictionary-bytes",
];

/// The options that take no value.
pub const RECALL_FLAGS: [&'static str; 3] = ["--json", "--help", "-h"];

/// The options while they are read.
#[derive(Debug, PartialEq, Eq)]
pub struct RecallOptionsBuilder {
    pub input: Option<String>,
    pub dictionaries: Vec<String>,
    pub details: Option<usize>,
    pub max_missing: Option<usize>,
    pub min_recovered: Option<usize>,
    pub max_regressed: Option<usize>,
    pub max_top1_regressed: Option<usize>,
    pub max_top1_changed: Option<usize>,
    pub max_p95_ms: Option<u64>,
    pub max_dictionary_bytes: Option<u64>,
    pub json: bool,
}

/// The mathematical value of the options while they are read.
pub ghost struct RecallOptionsBuilderView {
    pub input: Option<Seq<char>>,
    pub dictionaries: Seq<Seq<char>>,
    pub details: Option<usize>,
    pub max_missing: Option<usize>,
    pub min_recovered: Option<usize>,
    pub max_regressed: Option<usize>,
    pub max_top1_regressed: Option<usize>,
    pub max_top1_changed: Option<usize>,
    pub max_p95_ms: Option<u64>,
    pub max_dictionary_bytes: Option<u64>,
    pub json: bool,
}

impl View for RecallOptionsBuilder {
    type V = RecallOptionsBuilderView;

    open spec fn view(&self) -> RecallOptionsBuilderView {
        RecallOptionsBuilderView {
            input: optional_text(self.input),
            dictionaries: texts(self.dictionaries@),
            details: self.details,
            max_missing: self.max_missing,
            min_recovered: self.min_recovered,
            max_regressed: self.max_regressed,
            max_top1_regressed: self.max_top1_regressed,
            max_top1_changed: self.max_top1_changed,
            max_p95_ms: self.max_p95_ms,
            max_dictionary_bytes: self.max_dictionary_bytes,
            json: self.json,
        }
    }
}

/// The message on a value that is not a number of the wanted kind.
pub open spec fn unwanted_value(name: Seq<char>, wanted: Seq<char>, value: Seq<char>) -> Seq<char> {
    name + wanted + text_debug(value)
}

fn unwanted(name: &str, wanted: &str, value: &str) -> (result: String)
    ensures
        result@ == unwanted_value(name@, wanted@, value@),
{
    let start: String = message(name, wanted);
    let shown: String = debug_text(value);
    joined(start.as_str(), shown.as_str())
}

/// The value of an option that takes a count.
pub open spec fn recall_count(name: Seq<char>, value: Seq<char>, number: NumberBits) -> Result<
    usize,
    Seq<char>,
> {
    match count_value(value) {
        Some(count) => Ok(count),
        None => Err(unwanted_value(name, " requires a non-negative integer, got "@, value)),
    }
}

fn parse_usize(name: &str, value: &str, number: NumberBits) -> (result: Result<usize, String>)
    ensures
        agrees(result, recall_count(name@, value@, number)),
{
    match count_of(value) {
        Some(count) => Ok(count),
        None => Err(unwanted(name, " requires a non-negative integer, got ", value)),
    }
}

/// The value of an option that takes a number of bytes.
pub open spec fn recall_bytes(name: Seq<char>, value: Seq<char>, number: NumberBits) -> Result<
    u64,
    Seq<char>,
> {
    match unsigned_value(value) {
        Some(found) => if found <= u64::MAX {
            Ok(found as u64)
        } else {
            Err(unwanted_value(name, " requires a non-negative integer, got "@, value))
        },
        None => Err(unwanted_value(name, " requires a non-negative integer, got "@, value)),
    }
}

fn parse_u64(name: &str, value: &str, number: NumberBits) -> (result: Result<u64, String>)
    ensures
        agrees(result, recall_bytes(name@, value@, number)),
{
    match read_unsigned(value, u64::MAX) {
        Some(found) => Ok(found),
        None => Err(unwanted(name, " requires a non-negative integer, got ", value)),
    }
}

/// The value of an option that takes milliseconds.
pub open spec fn recall_milliseconds(
    name: Seq<char>,
    value: Seq<char>,
    number: NumberBits,
) -> Result<u64, Seq<char>> {
    match number.double {
        Some(bits) => if is_finite_non_negative(bits) {
            Ok(bits)
        } else {
            Err(unwanted_value(name, " requires a non-negative number, got "@, value))
        },
        None => Err(unwanted_value(name, " requires a non-negative number, got "@, value)),
    }
}

fn parse_non_negative(name: &str, value: &str, number: NumberBits) -> (result: Result<u64, String>)
    ensures
        agrees(result, recall_milliseconds(name@, value@, number)),
{
    match number.double {
        Some(bits) => if finite_non_negative(bits) {
            Ok(bits)
        } else {
            Err(unwanted(name, " requires a non-negative number, got ", value))
        },
        None => Err(unwanted(name, " requires a non-negative number, got ", value)),
    }
}

/// The options before any argument is read.
pub open spec fn recall_initial() -> RecallOptionsBuilderView {
    RecallOptionsBuilderView {
        input: None,
        dictionaries: Seq::empty(),
        details: None,
        max_missing: None,
        min_recovered: None,
        max_regressed: None,
        max_top1_regressed: None,
        max_top1_changed: None,
        max_p95_ms: None,
        max_dictionary_bytes: None,
        json: false,
    }
}

/// The options after one more option with its value.
pub open spec fn recall_value(
    options: RecallOptionsBuilderView,
    name: Seq<char>,
    value: Seq<char>,
    number: NumberBits,
) -> Result<RecallOptionsBuilderView, Seq<char>> {
    if name == "--input"@ {
        Ok(RecallOptionsBuilderView { input: Some(value), ..options })
    } else if name == "--dictionary"@ {
        Ok(RecallOptionsBuilderView { dictionaries: options.dictionaries.push(value), ..options })
    } else if name == "--details"@ {
        match recall_count(name, value, number) {
            Ok(found) => Ok(RecallOptionsBuilderView { details: Some(found), ..options }),
            Err(error) => Err(error),
        }
    } else if name == "--max-missing"@ {
        match recall_count(name, value, number) {
            Ok(found) => Ok(RecallOptionsBuilderView { max_missing: Some(found), ..options }),
            Err(error) => Err(error),
        }
    } else if name == "--min-recovered"@ {
        match recall_count(name, value, number) {
            Ok(found) => Ok(RecallOptionsBuilderView { min_recovered: Some(found), ..options }),
            Err(error) => Err(error),
        }
    } else if name == "--max-regressed"@ {
        match recall_count(name, value, number) {
            Ok(found) => Ok(RecallOptionsBuilderView { max_regressed: Some(found), ..options }),
            Err(error) => Err(error),
        }
    } else if name == "--max-top1-regressed"@ {
        match recall_count(name, value, number) {
            Ok(found) => Ok(RecallOptionsBuilderView { max_top1_regressed: Some(found), ..options }),
            Err(error) => Err(error),
        }
    } else if name == "--max-top1-changed"@ {
        match recall_count(name, value, number) {
            Ok(found) => Ok(RecallOptionsBuilderView { max_top1_changed: Some(found), ..options }),
            Err(error) => Err(error),
        }
    } else if name == "--max-p95-ms"@ {
        match recall_milliseconds(name, value, number) {
            Ok(found) => Ok(RecallOptionsBuilderView { max_p95_ms: Some(found), ..options }),
            Err(error) => Err(error),
        }
    } else if name == "--max-dictionary-bytes"@ {
        match recall_bytes(name, value, number) {
            Ok(found) => Ok(RecallOptionsBuilderView { max_dictionary_bytes: Some(found), ..options }),
            Err(error) => Err(error),
        }
    } else {
        Ok(options)
    }
}

/// The options after one more flag.
pub open spec fn recall_flag(options: RecallOptionsBuilderView, name: Seq<char>) -> Result<RecallOptionsBuilderView, Seq<char>> {
    if name == "--json"@ {
        Ok(RecallOptionsBuilderView { json: true, ..options })
    } else if name == "--help"@ {
        Err(RECALL_USAGE@)
    } else if name == "-h"@ {
        Err(RECALL_USAGE@)
    } else {
        Ok(options)
    }
}

/// The options after one more argument.
pub open spec fn recall_argument(
    options: RecallOptionsBuilderView,
    arguments: Seq<Seq<char>>,
    numbers: Seq<NumberBits>,
    item: Given,
) -> Result<RecallOptionsBuilderView, Seq<char>> {
    match item.value {
        Some(value) => recall_value(
            options,
            arguments[item.at as int],
            arguments[value as int],
            numbers[value as int],
        ),
        None => recall_flag(options, arguments[item.at as int]),
    }
}

/// The options after the first `count` arguments, or the error of the first that cannot be
/// taken.
pub open spec fn recall_arguments(
    options: RecallOptionsBuilderView,
    arguments: Seq<Seq<char>>,
    numbers: Seq<NumberBits>,
    items: Seq<Given>,
    count: int,
) -> Result<RecallOptionsBuilderView, Seq<char>>
    decreases count,
{
    if count <= 0 {
        Ok(options)
    } else {
        match recall_arguments(options, arguments, numbers, items, count - 1) {
            Ok(before) => recall_argument(before, arguments, numbers, items[count - 1]),
            Err(error) => Err(error),
        }
    }
}

proof fn recall_error_stays(
    options: RecallOptionsBuilderView,
    arguments: Seq<Seq<char>>,
    numbers: Seq<NumberBits>,
    items: Seq<Given>,
    low: int,
    high: int,
)
    requires
        recall_arguments(options, arguments, numbers, items, low) is Err,
        0 <= low <= high,
    ensures
        recall_arguments(options, arguments, numbers, items, high) == recall_arguments(
            options,
            arguments,
            numbers,
            items,
            low,
        ),
    decreases high - low,
{
    if low < high {
        recall_error_stays(options, arguments, numbers, items, low, high - 1);
    }
}

/// The error for an option whose value is missing.
pub open spec fn recall_missing(name: Seq<char>) -> Seq<char> {
    if name == "--input"@ || name == "--dictionary"@ {
        name + " requires PATH"@
    } else {
        name + " requires N"@
    }
}

fn missing(name: &str) -> (result: String)
    ensures
        result@ == recall_missing(name@),
{
    if same_text(name, "--input") || same_text(name, "--dictionary") {
        message(name, " requires PATH")
    } else {
        message(name, " requires N")
    }
}

/// What is read from the arguments from the first on.
pub open spec fn recall_read(
    start: RecallOptionsBuilderView,
    arguments: Seq<Seq<char>>,
    numbers: Seq<NumberBits>,
) -> Result<RecallOptionsBuilderView, Seq<char>> {
    let (items, stop) = given_from(
        arguments,
        names(RECALL_VALUED@),
        names(RECALL_FLAGS@),
        false,
        0,
    );
    match recall_arguments(start, arguments, numbers, items, items.len() as int) {
        Err(error) => Err(error),
        Ok(options) => match stop {
            Stop::End => Ok(options),
            Stop::Unknown(at) => Err("unknown argument "@ + text_debug(arguments[at as int]) + "\n"@ + RECALL_USAGE@),
            Stop::Missing(at) => Err(recall_missing(arguments[at as int])),
        },
    }
}

impl RecallOptionsBuilder {
    fn start() -> (result: Self)
        ensures
            result@ == recall_initial(),
    {
        let result: RecallOptionsBuilder = RecallOptionsBuilder {
            input: None,
            dictionaries: Vec::new(),
            details: None,
            max_missing: None,
            min_recovered: None,
            max_regressed: None,
            max_top1_regressed: None,
            max_top1_changed: None,
            max_p95_ms: None,
            max_dictionary_bytes: None,
            json: false,
        };
        assert(texts(result.dictionaries@) =~= Seq::<Seq<char>>::empty());
        result
    }

    fn set_value(&mut self, name: &str, value: &str, number: NumberBits) -> (result: Result<
        (),
        String,
    >)
        ensures
            match recall_value(old(self)@, name@, value@, number) {
                Ok(options) => result is Ok && final(self)@ == options,
                Err(error) => result is Err && result->Err_0@ == error,
            },
    {
        if same_text(name, "--input") {
            self.input = Some(value.to_owned());
        } else if same_text(name, "--dictionary") {
            push_text(&mut self.dictionaries, value);
        } else if same_text(name, "--details") {
            self.details = match parse_usize(name, value, number) {
                Ok(found) => Some(found),
                Err(error) => return Err(error),
            };
        } else if same_text(name, "--max-missing") {
            self.max_missing = match parse_usize(name, value, number) {
                Ok(found) => Some(found),
                Err(error) => return Err(error),
            };
        } else if same_text(name, "--min-recovered") {
            self.min_recovered = match parse_usize(name, value, number) {
                Ok(found) => Some(found),
                Err(error) => return Err(error),
            };
        } else if same_text(name, "--max-regressed") {
            self.max_regressed = match parse_usize(name, value, number) {
                Ok(found) => Some(found),
                Err(error) => return Err(error),
            };
        } else if same_text(name, "--max-top1-regressed") {
            self.max_top1_regressed = match parse_usize(name, value, number) {
                Ok(found) => Some(found),
                Err(error) => return Err(error),
            };
        } else if same_text(name, "--max-top1-changed") {
            self.max_top1_changed = match parse_usize(name, value, number) {
                Ok(found) => Some(found),
                Err(error) => return Err(error),
            };
        } else if same_text(name, "--max-p95-ms") {
            self.max_p95_ms = match parse_non_negative(name, value, number) {
                Ok(found) => Some(found),
                Err(error) => return Err(error),
            };
        } else if same_text(name, "--max-dictionary-bytes") {
            self.max_dictionary_bytes = match parse_u64(name, value, number) {
                Ok(found) => Some(found),
                Err(error) => return Err(error),
            };
        }
        Ok(())
    }

    fn set_flag(&mut self, name: &str) -> (result: Result<(), String>)
        ensures
            match recall_flag(old(self)@, name@) {
                Ok(options) => result is Ok && final(self)@ == options,
                Err(error) => result is Err && result->Err_0@ == error,
            },
    {
        if same_text(name, "--json") {
            self.json = true;
        } else if same_text(name, "--help") {
            return Err(RECALL_USAGE.to_owned());
        } else if same_text(name, "-h") {
            return Err(RECALL_USAGE.to_owned());
        }
        Ok(())
    }

    fn set_argument(&mut self, arguments: &[String], numbers: &[NumberBits], item: Given) -> (result:
        Result<(), String>)
        requires
            numbers@.len() == arguments@.len(),
            item.at < arguments@.len(),
            item.value matches Some(value) ==> value < arguments@.len(),
        ensures
            match recall_argument(old(self)@, texts(arguments@), numbers@, item) {
                Ok(options) => result is Ok && final(self)@ == options,
                Err(error) => result is Err && result->Err_0@ == error,
            },
    {
        let name: &str = arguments[item.at].as_str();
        assert(texts(arguments@)[item.at as int] == name@);
        match item.value {
            Some(value) => {
                assert(texts(arguments@)[value as int] == arguments@[value as int]@);
                self.set_value(name, arguments[value].as_str(), numbers[value])
            },
            None => self.set_flag(name),
        }
    }

    fn read(self, arguments: &[String], numbers: &[NumberBits]) -> (result: Result<Self, String>)
        requires
            numbers@.len() == arguments@.len(),
        ensures
            match recall_read(self@, texts(arguments@), numbers@) {
                Ok(options) => result is Ok && result->Ok_0@ == options,
                Err(error) => result is Err && result->Err_0@ == error,
            },
    {
        let valued: [&'static str; 10] = RECALL_VALUED;
        let flags: [&'static str; 3] = RECALL_FLAGS;
        let (items, stop) = given_options(
            arguments,
            valued.as_slice(),
            flags.as_slice(),
            false,
            0,
        );
        let ghost all = texts(arguments@);
        let ghost start = self@;
        let mut options: RecallOptionsBuilder = self;
        for index in 0..items.len()
            invariant
                all == texts(arguments@),
                numbers@.len() == arguments@.len(),
                forall|i: int|
                    0 <= i < items@.len() ==> (#[trigger] items@[i]).at < arguments@.len() && (
                    items@[i].value matches Some(value) ==> value < arguments@.len()),
                recall_arguments(start, all, numbers@, items@, index as int) == Ok::<
                    RecallOptionsBuilderView,
                    Seq<char>,
                >(options@),
                start == self@,
                (items@, stop) == given_from(
                    all,
                    names(RECALL_VALUED@),
                    names(RECALL_FLAGS@),
                    false,
                    0,
                ),
        {
            match options.set_argument(arguments, numbers, items[index]) {
                Ok(()) => {},
                Err(error) => {
                    proof {
                        recall_error_stays(
                            start,
                            all,
                            numbers@,
                            items@,
                            index + 1,
                            items@.len() as int,
                        );
                    }
                    return Err(error);
                },
            }
        }
        match stop {
            Stop::End => Ok(options),
            Stop::Unknown(at) => {
                assert(all[at as int] == arguments@[at as int]@);
                let shown: String = debug_text(arguments[at].as_str());
                let first: String = joined("unknown argument ", shown.as_str());
                let line: String = joined(first.as_str(), "\n");
                Err(joined(line.as_str(), RECALL_USAGE))
            },
            Stop::Missing(at) => {
                assert(all[at as int] == arguments@[at as int]@);
                Err(missing(arguments[at].as_str()))
            },
        }
    }
}

/// The options of a recall evaluation.
#[derive(Debug, PartialEq, Eq)]
pub struct RecallOptions {
    pub input: String,
    pub dictionaries: Vec<String>,
    pub details: Option<usize>,
    pub max_missing: Option<usize>,
    pub min_recovered: Option<usize>,
    pub max_regressed: Option<usize>,
    pub max_top1_regressed: Option<usize>,
    pub max_top1_changed: Option<usize>,
    /// The bits of a double.
    pub max_p95_ms: Option<u64>,
    pub max_dictionary_bytes: Option<u64>,
    pub json: bool,
}

impl RecallOptions {
    /// The options as they were read.
    pub open spec fn built(self) -> RecallOptionsBuilderView {
        RecallOptionsBuilderView {
            input: Some(self.input@),
            dictionaries: texts(self.dictionaries@),
            details: self.details,
            max_missing: self.max_missing,
            min_recovered: self.min_recovered,
            max_regressed: self.max_regressed,
            max_top1_regressed: self.max_top1_regressed,
            max_top1_changed: self.max_top1_changed,
            max_p95_ms: self.max_p95_ms,
            max_dictionary_bytes: self.max_dictionary_bytes,
            json: self.json,
        }
    }

    /// Reads a command line. `numbers` says of each argument what it reads as a number.
    pub fn parse(arguments: &[String], numbers: &[NumberBits]) -> (result: Result<Self, String>)
        requires
            numbers@.len() == arguments@.len(),
        ensures
            match recall_read(recall_initial(), texts(arguments@), numbers@) {
                Err(error) => result is Err && result->Err_0@ == error,
                Ok(read) => if read.input is None {
                    result is Err && result->Err_0@ == RECALL_USAGE@
                } else {
                    result is Ok && result->Ok_0.built() == read
                },
            },
    {
        let read: RecallOptionsBuilder = match RecallOptionsBuilder::start().read(
            arguments,
            numbers,
        ) {
            Ok(read) => read,
            Err(error) => return Err(error),
        };
        match read.input {
            None => Err(RECALL_USAGE.to_owned()),
            Some(input) => Ok(
                RecallOptions {
                    input,
                    dictionaries: read.dictionaries,
                    details: read.details,
                    max_missing: read.max_missing,
                    min_recovered: read.min_recovered,
                    max_regressed: read.max_regressed,
                    max_top1_regressed: read.max_top1_regressed,
                    max_top1_changed: read.max_top1_changed,
                    max_p95_ms: read.max_p95_ms,
                    max_dictionary_bytes: read.max_dictionary_bytes,
                    json: read.json,
                },
            ),
        }
    }
}

} // verus!
