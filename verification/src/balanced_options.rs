//! The options of the tool that builds a ranking benchmark.

use vstd::prelude::*;
use vstd::string::*;

use crate::arguments::{
    count_of, count_value, given_from, given_options, message, names, Given, NumberBits, Stop,
};
use crate::evaluation_options::{agrees, optional_text};
use crate::primitives::{debug_text, text_debug};
use crate::text::{joined, same_text, texts};
verus! {

/// How to call the benchmark builder.
pub const BALANCED_USAGE: &'static str =
    "usage: slime-balanced-devset <input.conllu> <mozc-basic.tsv> <output.json> \
     --source-split NAME [--count N] [--annotated-output PATH] [--phrase-windows]";

/// The options that take a value.
pub const BALANCED_VALUED: [&'static str; 3] = [
    "--source-split",
    "--count",
    "--annotated-output",
];

/// The options that take no value.
pub const BALANCED_FLAGS: [&'static str; 1] = ["--phrase-windows"];

/// The options while they are read.
#[derive(Debug, PartialEq, Eq)]
pub struct BalancedOptionsBuilder {
    pub conllu_path: String,
    pub dictionary_path: String,
    pub output_path: String,
    pub source_split: Option<String>,
    pub count: Option<usize>,
    pub annotated_output: Option<String>,
    pub phrase_windows: bool,
}

/// The mathematical value of the options while they are read.
pub ghost struct BalancedOptionsBuilderView {
    pub conllu_path: Seq<char>,
    pub dictionary_path: Seq<char>,
    pub output_path: Seq<char>,
    pub source_split: Option<Seq<char>>,
    pub count: Option<usize>,
    pub annotated_output: Option<Seq<char>>,
    pub phrase_windows: bool,
}

impl View for BalancedOptionsBuilder {
    type V = BalancedOptionsBuilderView;

    open spec fn view(&self) -> BalancedOptionsBuilderView {
        BalancedOptionsBuilderView {
            conllu_path: self.conllu_path@,
            dictionary_path: self.dictionary_path@,
            output_path: self.output_path@,
            source_split: optional_text(self.source_split),
            count: self.count,
            annotated_output: optional_text(self.annotated_output),
            phrase_windows: self.phrase_windows,
        }
    }
}

/// The value of an option that takes a count other than zero.
pub open spec fn balanced_count(name: Seq<char>, value: Seq<char>, number: NumberBits) -> Result<
    usize,
    Seq<char>,
> {
    match count_value(value) {
        Some(count) => if count == 0 {
            Err(name + " requires a positive integer"@)
        } else {
            Ok(count)
        },
        None => Err(name + " requires a positive integer"@),
    }
}

fn parse_count(name: &str, value: &str, number: NumberBits) -> (result: Result<usize, String>)
    ensures
        agrees(result, balanced_count(name@, value@, number)),
{
    match count_of(value) {
        Some(count) => if count == 0 {
            Err(message(name, " requires a positive integer"))
        } else {
            Ok(count)
        },
        None => Err(message(name, " requires a positive integer")),
    }
}

/// The options before any argument is read.
pub open spec fn balanced_initial(conllu_path: Seq<char>, dictionary_path: Seq<char>, output_path: Seq<char>) -> BalancedOptionsBuilderView {
    BalancedOptionsBuilderView {
        conllu_path,
        dictionary_path,
        output_path,
        source_split: None,
        count: None,
        annotated_output: None,
        phrase_windows: false,
    }
}

/// The options after one more option with its value.
pub open spec fn balanced_value(
    options: BalancedOptionsBuilderView,
    name: Seq<char>,
    value: Seq<char>,
    number: NumberBits,
) -> Result<BalancedOptionsBuilderView, Seq<char>> {
    if name == "--source-split"@ {
        Ok(BalancedOptionsBuilderView { source_split: Some(value), ..options })
    } else if name == "--count"@ {
        match balanced_count(name, value, number) {
            Ok(found) => Ok(BalancedOptionsBuilderView { count: Some(found), ..options }),
            Err(error) => Err(error),
        }
    } else if name == "--annotated-output"@ {
        Ok(BalancedOptionsBuilderView { annotated_output: Some(value), ..options })
    } else {
        Ok(options)
    }
}

/// The options after one more flag.
pub open spec fn balanced_flag(options: BalancedOptionsBuilderView, name: Seq<char>) -> Result<BalancedOptionsBuilderView, Seq<char>> {
    if name == "--phrase-windows"@ {
        Ok(BalancedOptionsBuilderView { phrase_windows: true, ..options })
    } else {
        Ok(options)
    }
}

/// The options after one more argument.
pub open spec fn balanced_argument(
    options: BalancedOptionsBuilderView,
    arguments: Seq<Seq<char>>,
    numbers: Seq<NumberBits>,
    item: Given,
) -> Result<BalancedOptionsBuilderView, Seq<char>> {
    match item.value {
        Some(value) => balanced_value(
            options,
            arguments[item.at as int],
            arguments[value as int],
            numbers[value as int],
        ),
        None => balanced_flag(options, arguments[item.at as int]),
    }
}

/// The options after the first `count` arguments, or the error of the first that cannot be
/// taken.
pub open spec fn balanced_arguments(
    options: BalancedOptionsBuilderView,
    arguments: Seq<Seq<char>>,
    numbers: Seq<NumberBits>,
    items: Seq<Given>,
    count: int,
) -> Result<BalancedOptionsBuilderView, Seq<char>>
    decreases count,
{
    if count <= 0 {
        Ok(options)
    } else {
        match balanced_arguments(options, arguments, numbers, items, count - 1) {
            Ok(before) => balanced_argument(before, arguments, numbers, items[count - 1]),
            Err(error) => Err(error),
        }
    }
}

proof fn balanced_error_stays(
    options: BalancedOptionsBuilderView,
    arguments: Seq<Seq<char>>,
    numbers: Seq<NumberBits>,
    items: Seq<Given>,
    low: int,
    high: int,
)
    requires
        balanced_arguments(options, arguments, numbers, items, low) is Err,
        0 <= low <= high,
    ensures
        balanced_arguments(options, arguments, numbers, items, high) == balanced_arguments(
            options,
            arguments,
            numbers,
            items,
            low,
        ),
    decreases high - low,
{
    if low < high {
        balanced_error_stays(options, arguments, numbers, items, low, high - 1);
    }
}

/// The error for an option whose value is missing.
pub open spec fn balanced_missing(name: Seq<char>) -> Seq<char> {
    name + " requires a value"@
}

fn missing(name: &str) -> (result: String)
    ensures
        result@ == balanced_missing(name@),
{
    message(name, " requires a value")
}

/// What is read from the arguments from the fourth on.
pub open spec fn balanced_read(
    start: BalancedOptionsBuilderView,
    arguments: Seq<Seq<char>>,
    numbers: Seq<NumberBits>,
) -> Result<BalancedOptionsBuilderView, Seq<char>> {
    let (items, stop) = given_from(
        arguments,
        names(BALANCED_VALUED@),
        names(BALANCED_FLAGS@),
        false,
        3,
    );
    match balanced_arguments(start, arguments, numbers, items, items.len() as int) {
        Err(error) => Err(error),
        Ok(options) => match stop {
            Stop::End => Ok(options),
            Stop::Unknown(at) => Err("unknown argument "@ + text_debug(arguments[at as int]) + "\n"@ + BALANCED_USAGE@),
            Stop::Missing(at) => Err(balanced_missing(arguments[at as int])),
        },
    }
}

impl BalancedOptionsBuilder {
    fn start(conllu_path: String, dictionary_path: String, output_path: String) -> (result: Self)
        ensures
            result@ == balanced_initial(conllu_path@, dictionary_path@, output_path@),
    {
        let result: BalancedOptionsBuilder = BalancedOptionsBuilder {
            conllu_path,
            dictionary_path,
            output_path,
            source_split: None,
            count: None,
            annotated_output: None,
            phrase_windows: false,
        };
        result
    }

    fn set_value(&mut self, name: &str, value: &str, number: NumberBits) -> (result: Result<
        (),
        String,
    >)
        ensures
            match balanced_value(old(self)@, name@, value@, number) {
                Ok(options) => result is Ok && final(self)@ == options,
                Err(error) => result is Err && result->Err_0@ == error,
            },
    {
        if same_text(name, "--source-split") {
            self.source_split = Some(value.to_owned());
        } else if same_text(name, "--count") {
            self.count = match parse_count(name, value, number) {
                Ok(found) => Some(found),
                Err(error) => return Err(error),
            };
        } else if same_text(name, "--annotated-output") {
            self.annotated_output = Some(value.to_owned());
        }
        Ok(())
    }

    fn set_flag(&mut self, name: &str) -> (result: Result<(), String>)
        ensures
            match balanced_flag(old(self)@, name@) {
                Ok(options) => result is Ok && final(self)@ == options,
                Err(error) => result is Err && result->Err_0@ == error,
            },
    {
        if same_text(name, "--phrase-windows") {
            self.phrase_windows = true;
        }
        Ok(())
    }

    fn set_argument(&mut self, arguments: &[String], numbers: &[NumberBits], item: Given) -> (result:
        Result<(), String>)
        requires
            numbers@.len() == arguments@.len(),
            item.at < arguments@.len(),
            item.value matches Some(value) ==> value < arguments@.len(),
        ensures
            match balanced_argument(old(self)@, texts(arguments@), numbers@, item) {
                Ok(options) => result is Ok && final(self)@ == options,
                Err(error) => result is Err && result->Err_0@ == error,
            },
    {
        let name: &str = arguments[item.at].as_str();
        assert(texts(arguments@)[item.at as int] == name@);
        match item.value {
            Some(value) => {
                assert(texts(arguments@)[value as int] == arguments@[value as int]@);
                self.set_value(name, arguments[value].as_str(), numbers[value])
            },
            None => self.set_flag(name),
        }
    }

    fn read(self, arguments: &[String], numbers: &[NumberBits]) -> (result: Result<Self, String>)
        requires
            numbers@.len() == arguments@.len(),
        ensures
            match balanced_read(self@, texts(arguments@), numbers@) {
                Ok(options) => result is Ok && result->Ok_0@ == options,
                Err(error) => result is Err && result->Err_0@ == error,
            },
    {
        let valued: [&'static str; 3] = BALANCED_VALUED;
        let flags: [&'static str; 1] = BALANCED_FLAGS;
        let (items, stop) = given_options(
            arguments,
            valued.as_slice(),
            flags.as_slice(),
            false,
            3,
        );
        let ghost all = texts(arguments@);
        let ghost start = self@;
        let mut options: BalancedOptionsBuilder = self;
        for index in 0..items.len()
            invariant
                all == texts(arguments@),
                numbers@.len() == arguments@.len(),
                forall|i: int|
                    0 <= i < items@.len() ==> (#[trigger] items@[i]).at < arguments@.len() && (
                    items@[i].value matches Some(value) ==> value < arguments@.len()),
                balanced_arguments(start, all, numbers@, items@, index as int) == Ok::<
                    BalancedOptionsBuilderView,
                    Seq<char>,
                >(options@),
                start == self@,
                (items@, stop) == given_from(
                    all,
                    names(BALANCED_VALUED@),
                    names(BALANCED_FLAGS@),
                    false,
                    3,
                ),
        {
            match options.set_argument(arguments, numbers, items[index]) {
                Ok(()) => {},
                Err(error) => {
                    proof {
                        balanced_error_stays(
                            start,
                            all,
                            numbers@,
                            items@,
                            index + 1,
                            items@.len() as int,
                        );
                    }
                    return Err(error);
                },
            }
        }
        match stop {
            Stop::End => Ok(options),
            Stop::Unknown(at) => {
                assert(all[at as int] == arguments@[at as int]@);
                let shown: String = debug_text(arguments[at].as_str());
                let first: String = joined("unknown argument ", shown.as_str());
                let line: String = joined(first.as_str(), "\n");
                Err(joined(line.as_str(), BALANCED_USAGE))
            },
            Stop::Missing(at) => {
                assert(all[at as int] == arguments@[at as int]@);
                Err(missing(arguments[at].as_str()))
            },
        }
    }
}

/// The options of the benchmark builder.
#[derive(Debug, PartialEq, Eq)]
pub struct BalancedOptions {
    pub conllu_path: String,
    pub dictionary_path: String,
    pub output_path: String,
    pub source_split: String,
    pub count: Option<usize>,
    pub annotated_output: Option<String>,
    pub phrase_windows: bool,
}

impl BalancedOptions {
    /// The options as they were read.
    pub open spec fn built(self) -> BalancedOptionsBuilderView {
        BalancedOptionsBuilderView {
            conllu_path: self.conllu_path@,
            dictionary_path: self.dictionary_path@,
            output_path: self.output_path@,
            source_split: Some(self.source_split@),
            count: self.count,
            annotated_output: optional_text(self.annotated_output),
            phrase_windows: self.phrase_windows,
        }
    }

    /// Reads a command line. `numbers` says of each argument what it reads as a number.
    pub fn parse(arguments: &[String], numbers: &[NumberBits]) -> (result: Result<Self, String>)
        requires
            numbers@.len() == arguments@.len(),
        ensures
            if arguments@.len() < 3 {
                result is Err && result->Err_0@ == BALANCED_USAGE@
            } else {
                match balanced_read(
                    balanced_initial(arguments@[0]@, arguments@[1]@, arguments@[2]@),
                    texts(arguments@),
                    numbers@,
                ) {
                    Err(error) => result is Err && result->Err_0@ == error,
                    Ok(read) => if read.source_split is None {
                        result is Err && result->Err_0@ == "--source-split is required"@
                    } else {
                        result is Ok && result->Ok_0.built() == read
                    },
                }
            },
    {
        if arguments.len() < 3 {
            return Err(BALANCED_USAGE.to_owned());
        }
        let start: BalancedOptionsBuilder = BalancedOptionsBuilder::start(
            arguments[0].clone(),
            arguments[1].clone(),
            arguments[2].clone(),
        );
        let read: BalancedOptionsBuilder = match start.read(arguments, numbers) {
            Ok(read) => read,
            Err(error) => return Err(error),
        };
        match read.source_split {
            None => Err("--source-split is required".to_owned()),
            Some(source_split) => Ok(
                BalancedOptions {
                    conllu_path: read.conllu_path,
                    dictionary_path: read.dictionary_path,
                    output_path: read.output_path,
                    source_split,
                    count: read.count,
                    annotated_output: read.annotated_output,
                    phrase_windows: read.phrase_windows,
                },
            ),
        }
    }
}

} // verus!
