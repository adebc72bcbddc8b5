//! The options of the tool that collects compound phrases.

use vstd::prelude::*;
use vstd::string::*;

use crate::arguments::{
    count_of, count_value, given_from, given_options, names, Given, NumberBits, Stop,
};
use crate::evaluation_options::{agrees, optional_text, push_text};
use crate::text::{same_text, texts};
verus! {

/// How to call the corpus builder.
pub const CORPUS_USAGE: &'static str =
    "usage: slime-recall-corpus --input PATH [--input PATH ...] --output PATH [--limit N]";

/// The options that take a value.
pub const CORPUS_VALUED: [&'static str; 3] = [
    "--input",
    "--output",
    "--limit",
];

/// The options that take no value.
pub const CORPUS_FLAGS: [&'static str; 0] = [];

/// The options while they are read.
#[derive(Debug, PartialEq, Eq)]
pub struct CorpusOptionsBuilder {
    pub inputs: Vec<String>,
    pub output: Option<String>,
    pub limit: usize,
}

/// The mathematical value of the options while they are read.
pub ghost struct CorpusOptionsBuilderView {
    pub inputs: Seq<Seq<char>>,
    pub output: Option<Seq<char>>,
    pub limit: usize,
}

impl View for CorpusOptionsBuilder {
    type V = CorpusOptionsBuilderView;

    open spec fn view(&self) -> CorpusOptionsBuilderView {
        CorpusOptionsBuilderView {
            inputs: texts(self.inputs@),
            output: optional_text(self.output),
            limit: self.limit,
        }
    }
}

/// The value of an option that takes a count other than zero.
pub open spec fn corpus_limit(name: Seq<char>, value: Seq<char>, number: NumberBits) -> Result<
    usize,
    Seq<char>,
> {
    match count_value(value) {
        Some(count) => if count == 0 {
            Err("--limit must be a positive integer"@)
        } else {
            Ok(count)
        },
        None => Err("--limit must be a positive integer"@),
    }
}

fn parse_limit(name: &str, value: &str, number: NumberBits) -> (result: Result<usize, String>)
    ensures
        agrees(result, corpus_limit(name@, value@, number)),
{
    match count_of(value) {
        Some(count) => if count == 0 {
            Err("--limit must be a positive integer".to_owned())
        } else {
            Ok(count)
        },
        None => Err("--limit must be a positive integer".to_owned()),
    }
}

/// The options before any argument is read.
pub open spec fn corpus_initial() -> CorpusOptionsBuilderView {
    CorpusOptionsBuilderView {
        inputs: Seq::empty(),
        output: None,
        limit: 2_000,
    }
}

/// The options after one more option with its value.
pub open spec fn corpus_value(
    options: CorpusOptionsBuilderView,
    name: Seq<char>,
    value: Seq<char>,
    number: NumberBits,
) -> Result<CorpusOptionsBuilderView, Seq<char>> {
    if name == "--input"@ {
        Ok(CorpusOptionsBuilderView { inputs: options.inputs.push(value), ..options })
    } else if name == "--output"@ {
        Ok(CorpusOptionsBuilderView { output: Some(value), ..options })
    } else if name == "--limit"@ {
        match corpus_limit(name, value, number) {
            Ok(found) => Ok(CorpusOptionsBuilderView { limit: found, ..options }),
            Err(error) => Err(error),
        }
    } else {
        Ok(options)
    }
}

/// The options after one more flag.
pub open spec fn corpus_flag(options: CorpusOptionsBuilderView, name: Seq<char>) -> Result<CorpusOptionsBuilderView, Seq<char>> {
    Ok(options)
}

/// The options after one more argument.
pub open spec fn corpus_argument(
    options: CorpusOptionsBuilderView,
    arguments: Seq<Seq<char>>,
    numbers: Seq<NumberBits>,
    item: Given,
) -> Result<CorpusOptionsBuilderView, Seq<char>> {
    match item.value {
        Some(value) => corpus_value(
            options,
            arguments[item.at as int],
            arguments[value as int],
            numbers[value as int],
        ),
        None => corpus_flag(options, arguments[item.at as int]),
    }
}

/// The options after the first `count` arguments, or the error of the first that cannot be
/// taken.
pub open spec fn corpus_arguments(
    options: CorpusOptionsBuilderView,
    arguments: Seq<Seq<char>>,
    numbers: Seq<NumberBits>,
    items: Seq<Given>,
    count: int,
) -> Result<CorpusOptionsBuilderView, Seq<char>>
    decreases count,
{
    if count <= 0 {
        Ok(options)
    } else {
        match corpus_arguments(options, arguments, numbers, items, count - 1) {
            Ok(before) => corpus_argument(before, arguments, numbers, items[count - 1]),
            Err(error) => Err(error),
        }
    }
}

proof fn corpus_error_stays(
    options: CorpusOptionsBuilderView,
    arguments: Seq<Seq<char>>,
    numbers: Seq<NumberBits>,
    items: Seq<Given>,
    low: int,
    high: int,
)
    requires
        corpus_arguments(options, arguments, numbers, items, low) is Err,
        0 <= low <= high,
    ensures
        corpus_arguments(options, arguments, numbers, items, high) == corpus_arguments(
            options,
            arguments,
            numbers,
            items,
            low,
        ),
    decreases high - low,
{
    if low < high {
        corpus_error_stays(options, arguments, numbers, items, low, high - 1);
    }
}

/// The error for an option whose value is missing.
pub open spec fn corpus_missing(name: Seq<char>) -> Seq<char> {
    if name == "--limit"@ {
        "--limit requires a value"@
    } else {
        CORPUS_USAGE@
    }
}

fn missing(name: &str) -> (result: String)
    ensures
        result@ == corpus_missing(name@),
{
    if same_text(name, "--limit") {
        "--limit requires a value".to_owned()
    } else {
        CORPUS_USAGE.to_owned()
    }
}

/// What is read from the arguments from the first on.
pub open spec fn corpus_read(
    start: CorpusOptionsBuilderView,
    arguments: Seq<Seq<char>>,
    numbers: Seq<NumberBits>,
) -> Result<CorpusOptionsBuilderView, Seq<char>> {
    let (items, stop) = given_from(
        arguments,
        names(CORPUS_VALUED@),
        names(CORPUS_FLAGS@),
        false,
        0,
    );
    match corpus_arguments(start, arguments, numbers, items, items.len() as int) {
        Err(error) => Err(error),
        Ok(options) => match stop {
            Stop::End => Ok(options),
            Stop::Unknown(at) => Err(CORPUS_USAGE@),
            Stop::Missing(at) => Err(corpus_missing(arguments[at as int])),
        },
    }
}

impl CorpusOptionsBuilder {
    fn start() -> (result: Self)
        ensures
            result@ == corpus_initial(),
    {
        let result: CorpusOptionsBuilder = CorpusOptionsBuilder {
            inputs: Vec::new(),
            output: None,
            limit: 2_000,
        };
        assert(texts(result.inputs@) =~= Seq::<Seq<char>>::empty());
        result
    }

    fn set_value(&mut self, name: &str, value: &str, number: NumberBits) -> (result: Result<
        (),
        String,
    >)
        ensures
            match corpus_value(old(self)@, name@, value@, number) {
                Ok(options) => result is Ok && final(self)@ == options,
                Err(error) => result is Err && result->Err_0@ == error,
            },
    {
        if same_text(name, "--input") {
            push_text(&mut self.inputs, value);
        } else if same_text(name, "--output") {
            self.output = Some(value.to_owned());
        } else if same_text(name, "--limit") {
            self.limit = match parse_limit(name, value, number) {
                Ok(found) => found,
                Err(error) => return Err(error),
            };
        }
        Ok(())
    }

    fn set_flag(&mut self, name: &str) -> (result: Result<(), String>)
        ensures
            match corpus_flag(old(self)@, name@) {
                Ok(options) => result is Ok && final(self)@ == options,
                Err(error) => result is Err && result->Err_0@ == error,
            },
    {
        Ok(())
    }

    fn set_argument(&mut self, arguments: &[String], numbers: &[NumberBits], item: Given) -> (result:
        Result<(), String>)
        requires
            numbers@.len() == arguments@.len(),
            item.at < arguments@.len(),
            item.value matches Some(value) ==> value < arguments@.len(),
        ensures
            match corpus_argument(old(self)@, texts(arguments@), numbers@, item) {
                Ok(options) => result is Ok && final(self)@ == options,
                Err(error) => result is Err && result->Err_0@ == error,
            },
    {
        let name: &str = arguments[item.at].as_str();
        assert(texts(arguments@)[item.at as int] == name@);
        match item.value {
            Some(value) => {
                assert(texts(arguments@)[value as int] == arguments@[value as int]@);
                self.set_value(name, arguments[value].as_str(), numbers[value])
            },
            None => self.set_flag(name),
        }
    }

    fn read(self, arguments: &[String], numbers: &[NumberBits]) -> (result: Result<Self, String>)
        requires
            numbers@.len() == arguments@.len(),
        ensures
            match corpus_read(self@, texts(arguments@), numbers@) {
                Ok(options) => result is Ok && result->Ok_0@ == options,
                Err(error) => result is Err && result->Err_0@ == error,
            },
    {
        let valued: [&'static str; 3] = CORPUS_VALUED;
        let flags: [&'static str; 0] = CORPUS_FLAGS;
        let (items, stop) = given_options(
            arguments,
            valued.as_slice(),
            flags.as_slice(),
            false,
            0,
        );
        let ghost all = texts(arguments@);
        let ghost start = self@;
        let mut options: CorpusOptionsBuilder = self;
        for index in 0..items.len()
            invariant
                all == texts(arguments@),
                numbers@.len() == arguments@.len(),
                forall|i: int|
                    0 <= i < items@.len() ==> (#[trigger] items@[i]).at < arguments@.len() && (
                    items@[i].value matches Some(value) ==> value < arguments@.len()),
                corpus_arguments(start, all, numbers@, items@, index as int) == Ok::<
                    CorpusOptionsBuilderView,
                    Seq<char>,
                >(options@),
                start == self@,
                (items@, stop) == given_from(
                    all,
                    names(CORPUS_VALUED@),
                    names(CORPUS_FLAGS@),
                    false,
                    0,
                ),
        {
            match options.set_argument(arguments, numbers, items[index]) {
                Ok(()) => {},
                Err(error) => {
                    proof {
                        corpus_error_stays(
                            start,
                            all,
                            numbers@,
                            items@,
                            index + 1,
                            items@.len() as int,
                        );
                    }
                    return Err(error);
                },
            }
        }
        match stop {
            Stop::End => Ok(options),
            Stop::Unknown(at) => {
                assert(all[at as int] == arguments@[at as int]@);
                Err(CORPUS_USAGE.to_owned())
            },
            Stop::Missing(at) => {
                assert(all[at as int] == arguments@[at as int]@);
                Err(missing(arguments[at].as_str()))
            },
        }
    }
}

/// The options of the corpus builder.
#[derive(Debug, PartialEq, Eq)]
pub struct CorpusOptions {
    pub inputs: Vec<String>,
    pub output: String,
    pub limit: usize,
}

impl CorpusOptions {
    /// The options as they were read.
    pub open spec fn built(self) -> CorpusOptionsBuilderView {
        CorpusOptionsBuilderView {
            inputs: texts(self.inputs@),
            output: Some(self.output@),
            limit: self.limit,
        }
    }

    /// Reads a command line. `numbers` says of each argument what it reads as a number.
    pub fn parse(arguments: &[String], numbers: &[NumberBits]) -> (result: Result<Self, String>)
        requires
            numbers@.len() == arguments@.len(),
        ensures
            match corpus_read(corpus_initial(), texts(arguments@), numbers@) {
                Err(error) => result is Err && result->Err_0@ == error,
                Ok(read) => if read.inputs.len() == 0 || read.output is None {
                    result is Err && result->Err_0@ == CORPUS_USAGE@
                } else {
                    result is Ok && result->Ok_0.built() == read
                },
            },
    {
        let read: CorpusOptionsBuilder = match CorpusOptionsBuilder::start().read(
            arguments,
            numbers,
        ) {
            Ok(read) => read,
            Err(error) => return Err(error),
        };
        if read.inputs.len() == 0 {
            return Err(CORPUS_USAGE.to_owned());
        }
        match read.output {
            None => Err(CORPUS_USAGE.to_owned()),
            Some(output) => Ok(CorpusOptions { inputs: read.inputs, output, limit: read.limit }),
        }
    }
}

} // verus!
