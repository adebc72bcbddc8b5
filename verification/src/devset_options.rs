//! The options of the tool that builds a development set.

use vstd::prelude::*;
use vstd::string::*;

use crate::arguments::{
    count_of, count_value, given_from, given_options, message, names, Given, NumberBits, Stop,
};
use crate::evaluation_options::{agrees, optional_text};
use crate::primitives::{debug_text, text_debug};
use crate::text::{joined, same_text, texts};
verus! {

/// How to call the development set builder.
pub const DEVSET_USAGE: &'static str =
    "usage: ime-devset <train.jsonl> <mozc-basic.tsv> <output.json> \
     [--count N] [--partition-count N \
     (--partition-index N | --exclude-partition-index N)] \
     [--annotated-output PATH]";

/// The options that take a value.
pub const DEVSET_VALUED: [&'static str; 5] = [
    "--count",
    "--partition-count",
    "--partition-index",
    "--exclude-partition-index",
    "--annotated-output",
];

/// The options that take no value.
pub const DEVSET_FLAGS: [&'static str; 0] = [];

/// The options while they are read.
#[derive(Debug, PartialEq, Eq)]
pub struct DevsetOptions {
    pub train_path: String,
    pub dictionary_path: String,
    pub output_path: String,
    pub count: usize,
    pub partition_count: usize,
    pub partition_index: Option<usize>,
    pub exclude_partition_index: Option<usize>,
    pub annotated_output: Option<String>,
}

/// The mathematical value of the options while they are read.
pub ghost struct DevsetOptionsView {
    pub train_path: Seq<char>,
    pub dictionary_path: Seq<char>,
    pub output_path: Seq<char>,
    pub count: usize,
    pub partition_count: usize,
    pub partition_index: Option<usize>,
    pub exclude_partition_index: Option<usize>,
    pub annotated_output: Option<Seq<char>>,
}

impl View for DevsetOptions {
    type V = DevsetOptionsView;

    open spec fn view(&self) -> DevsetOptionsView {
        DevsetOptionsView {
            train_path: self.train_path@,
            dictionary_path: self.dictionary_path@,
            output_path: self.output_path@,
            count: self.count,
            partition_count: self.partition_count,
            partition_index: self.partition_index,
            exclude_partition_index: self.exclude_partition_index,
            annotated_output: optional_text(self.annotated_output),
        }
    }
}

/// The value of an option that takes a count.
pub open spec fn devset_positive(name: Seq<char>, value: Seq<char>, number: NumberBits) -> Result<
    usize,
    Seq<char>,
> {
    match count_value(value) {
        Some(count) => Ok(count),
        None => Err(name + " requires a positive integer"@),
    }
}

fn parse_positive(name: &str, value: &str, number: NumberBits) -> (result: Result<usize, String>)
    ensures
        agrees(result, devset_positive(name@, value@, number)),
{
    match count_of(value) {
        Some(count) => Ok(count),
        None => Err(message(name, " requires a positive integer")),
    }
}

/// The value of an option that takes a number from zero on.
pub open spec fn devset_index(name: Seq<char>, value: Seq<char>, number: NumberBits) -> Result<
    usize,
    Seq<char>,
> {
    match count_value(value) {
        Some(count) => Ok(count),
        None => Err(name + " requires a non-negative integer"@),
    }
}

fn parse_index(name: &str, value: &str, number: NumberBits) -> (result: Result<usize, String>)
    ensures
        agrees(result, devset_index(name@, value@, number)),
{
    match count_of(value) {
        Some(count) => Ok(count),
        None => Err(message(name, " requires a non-negative integer")),
    }
}

/// The options before any argument is read.
pub open spec fn devset_initial(train_path: Seq<char>, dictionary_path: Seq<char>, output_path: Seq<char>) -> DevsetOptionsView {
    DevsetOptionsView {
        train_path,
        dictionary_path,
        output_path,
        count: 400,
        partition_count: 1,
        partition_index: None,
        exclude_partition_index: None,
        annotated_output: None,
    }
}

/// The options after one more option with its value.
pub open spec fn devset_value(
    options: DevsetOptionsView,
    name: Seq<char>,
    value: Seq<char>,
    number: NumberBits,
) -> Result<DevsetOptionsView, Seq<char>> {
    if name == "--count"@ {
        match devset_positive(name, value, number) {
            Ok(found) => Ok(DevsetOptionsView { count: found, ..options }),
            Err(error) => Err(error),
        }
    } else if name == "--partition-count"@ {
        match devset_positive(name, value, number) {
            Ok(found) => Ok(DevsetOptionsView { partition_count: found, ..options }),
            Err(error) => Err(error),
        }
    } else if name == "--partition-index"@ {
        match devset_index(name, value, number) {
            Ok(found) => Ok(DevsetOptionsView { partition_index: Some(found), ..options }),
            Err(error) => Err(error),
        }
    } else if name == "--exclude-partition-index"@ {
        match devset_index(name, value, number) {
            Ok(found) => Ok(DevsetOptionsView { exclude_partition_index: Some(found), ..options }),
            Err(error) => Err(error),
        }
    } else if name == "--annotated-output"@ {
        Ok(DevsetOptionsView { annotated_output: Some(value), ..options })
    } else {
        Ok(options)
    }
}

/// The options after one more flag.
pub open spec fn devset_flag(options: DevsetOptionsView, name: Seq<char>) -> Result<DevsetOptionsView, Seq<char>> {
    Ok(options)
}

/// The options after one more argument.
pub open spec fn devset_argument(
    options: DevsetOptionsView,
    arguments: Seq<Seq<char>>,
    numbers: Seq<NumberBits>,
    item: Given,
) -> Result<DevsetOptionsView, Seq<char>> {
    match item.value {
        Some(value) => devset_value(
            options,
            arguments[item.at as int],
            arguments[value as int],
            numbers[value as int],
        ),
        None => devset_flag(options, arguments[item.at as int]),
    }
}

/// The options after the first `count` arguments, or the error of the first that cannot be
/// taken.
pub open spec fn devset_arguments(
    options: DevsetOptionsView,
    arguments: Seq<Seq<char>>,
    numbers: Seq<NumberBits>,
    items: Seq<Given>,
    count: int,
) -> Result<DevsetOptionsView, Seq<char>>
    decreases count,
{
    if count <= 0 {
        Ok(options)
    } else {
        match devset_arguments(options, arguments, numbers, items, count - 1) {
            Ok(before) => devset_argument(before, arguments, numbers, items[count - 1]),
            Err(error) => Err(error),
        }
    }
}

proof fn devset_error_stays(
    options: DevsetOptionsView,
    arguments: Seq<Seq<char>>,
    numbers: Seq<NumberBits>,
    items: Seq<Given>,
    low: int,
    high: int,
)
    requires
        devset_arguments(options, arguments, numbers, items, low) is Err,
        0 <= low <= high,
    ensures
        devset_arguments(options, arguments, numbers, items, high) == devset_arguments(
            options,
            arguments,
            numbers,
            items,
            low,
        ),
    decreases high - low,
{
    if low < high {
        devset_error_stays(options, arguments, numbers, items, low, high - 1);
    }
}

/// The error for an option whose value is missing.
pub open spec fn devset_missing(name: Seq<char>) -> Seq<char> {
    if name == "--annotated-output"@ {
        name + " requires a path"@
    } else {
        name + " requires a value"@
    }
}

fn missing(name: &str) -> (result: String)
    ensures
        result@ == devset_missing(name@),
{
    if same_text(name, "--annotated-output") {
        message(name, " requires a path")
    } else {
        message(name, " requires a value")
    }
}

/// The first rule that the options break, if any.
pub open spec fn devset_conflict(options: DevsetOptionsView) -> Option<Seq<char>> {
    let selected = if options.partition_index is Some {
        options.partition_index
    } else {
        options.exclude_partition_index
    };
    if options.count == 0 {
        Some("--count requires a positive integer"@)
    } else if options.partition_count == 0 {
        Some("--partition-count requires a positive integer"@)
    } else if options.partition_index is Some && options.exclude_partition_index is Some {
        Some("--partition-index and --exclude-partition-index are mutually exclusive"@)
    } else if selected is Some && selected->0 >= options.partition_count {
        Some("partition index must be less than --partition-count"@)
    } else if options.partition_count > 1 && selected is None {
        Some("--partition-count requires --partition-index or --exclude-partition-index"@)
    } else {
        None
    }
}

/// What is read from the arguments from the fourth on.
pub open spec fn devset_read(
    start: DevsetOptionsView,
    arguments: Seq<Seq<char>>,
    numbers: Seq<NumberBits>,
) -> Result<DevsetOptionsView, Seq<char>> {
    let (items, stop) = given_from(
        arguments,
        names(DEVSET_VALUED@),
        names(DEVSET_FLAGS@),
        false,
        3,
    );
    match devset_arguments(start, arguments, numbers, items, items.len() as int) {
        Err(error) => Err(error),
        Ok(options) => match stop {
            Stop::End => Ok(options),
            Stop::Unknown(at) => Err("unknown argument "@ + text_debug(arguments[at as int]) + "\n"@ + DEVSET_USAGE@),
            Stop::Missing(at) => Err(devset_missing(arguments[at as int])),
        },
    }
}

impl DevsetOptions {
    fn start(train_path: String, dictionary_path: String, output_path: String) -> (result: Self)
        ensures
            result@ == devset_initial(train_path@, dictionary_path@, output_path@),
    {
        let result: DevsetOptions = DevsetOptions {
            train_path,
            dictionary_path,
            output_path,
            count: 400,
            partition_count: 1,
            partition_index: None,
            exclude_partition_index: None,
            annotated_output: None,
        };
        result
    }

    fn set_value(&mut self, name: &str, value: &str, number: NumberBits) -> (result: Result<
        (),
        String,
    >)
        ensures
            match devset_value(old(self)@, name@, value@, number) {
                Ok(options) => result is Ok && final(self)@ == options,
                Err(error) => result is Err && result->Err_0@ == error,
            },
    {
        if same_text(name, "--count") {
            self.count = match parse_positive(name, value, number) {
                Ok(found) => found,
                Err(error) => return Err(error),
            };
        } else if same_text(name, "--partition-count") {
            self.partition_count = match parse_positive(name, value, number) {
                Ok(found) => found,
                Err(error) => return Err(error),
            };
        } else if same_text(name, "--partition-index") {
            self.partition_index = match parse_index(name, value, number) {
                Ok(found) => Some(found),
                Err(error) => return Err(error),
            };
        } else if same_text(name, "--exclude-partition-index") {
            self.exclude_partition_index = match parse_index(name, value, number) {
                Ok(found) => Some(found),
                Err(error) => return Err(error),
            };
        } else if same_text(name, "--annotated-output") {
            self.annotated_output = Some(value.to_owned());
        }
        Ok(())
    }

    fn set_flag(&mut self, name: &str) -> (result: Result<(), String>)
        ensures
            match devset_flag(old(self)@, name@) {
                Ok(options) => result is Ok && final(self)@ == options,
                Err(error) => result is Err && result->Err_0@ == error,
            },
    {
        Ok(())
    }

    fn set_argument(&mut self, arguments: &[String], numbers: &[NumberBits], item: Given) -> (result:
        Result<(), String>)
        requires
            numbers@.len() == arguments@.len(),
            item.at < arguments@.len(),
            item.value matches Some(value) ==> value < arguments@.len(),
        ensures
            match devset_argument(old(self)@, texts(arguments@), numbers@, item) {
                Ok(options) => result is Ok && final(self)@ == options,
                Err(error) => result is Err && result->Err_0@ == error,
            },
    {
        let name: &str = arguments[item.at].as_str();
        assert(texts(arguments@)[item.at as int] == name@);
        match item.value {
            Some(value) => {
                assert(texts(arguments@)[value as int] == arguments@[value as int]@);
                self.set_value(name, arguments[value].as_str(), numbers[value])
            },
            None => self.set_flag(name),
        }
    }

    fn read(self, arguments: &[String], numbers: &[NumberBits]) -> (result: Result<Self, String>)
        requires
            numbers@.len() == arguments@.len(),
        ensures
            match devset_read(self@, texts(arguments@), numbers@) {
                Ok(options) => result is Ok && result->Ok_0@ == options,
                Err(error) => result is Err && result->Err_0@ == error,
            },
    {
        let valued: [&'static str; 5] = DEVSET_VALUED;
        let flags: [&'static str; 0] = DEVSET_FLAGS;
        let (items, stop) = given_options(
            arguments,
            valued.as_slice(),
            flags.as_slice(),
            false,
            3,
        );
        let ghost all = texts(arguments@);
        let ghost start = self@;
        let mut options: DevsetOptions = self;
        for index in 0..items.len()
            invariant
                all == texts(arguments@),
                numbers@.len() == arguments@.len(),
                forall|i: int|
                    0 <= i < items@.len() ==> (#[trigger] items@[i]).at < arguments@.len() && (
                    items@[i].value matches Some(value) ==> value < arguments@.len()),
                devset_arguments(start, all, numbers@, items@, index as int) == Ok::<
                    DevsetOptionsView,
                    Seq<char>,
                >(options@),
                start == self@,
                (items@, stop) == given_from(
                    all,
                    names(DEVSET_VALUED@),
                    names(DEVSET_FLAGS@),
                    false,
                    3,
                ),
        {
            match options.set_argument(arguments, numbers, items[index]) {
                Ok(()) => {},
                Err(error) => {
                    proof {
                        devset_error_stays(
                            start,
                            all,
                            numbers@,
                            items@,
                            index + 1,
                            items@.len() as int,
                        );
                    }
                    return Err(error);
                },
            }
        }
        match stop {
            Stop::End => Ok(options),
            Stop::Unknown(at) => {
                assert(all[at as int] == arguments@[at as int]@);
                let shown: String = debug_text(arguments[at].as_str());
                let first: String = joined("unknown argument ", shown.as_str());
                let line: String = joined(first.as_str(), "\n");
                Err(joined(line.as_str(), DEVSET_USAGE))
            },
            Stop::Missing(at) => {
                assert(all[at as int] == arguments@[at as int]@);
                Err(missing(arguments[at].as_str()))
            },
        }
    }
}

impl DevsetOptions {
    fn first_conflict(&self) -> (result: Option<String>)
        ensures
            optional_text(result) == devset_conflict(self@),
    {
        if self.count == 0 {
            return Some("--count requires a positive integer".to_owned());
        }
        if self.partition_count == 0 {
            return Some("--partition-count requires a positive integer".to_owned());
        }
        if self.partition_index.is_some() && self.exclude_partition_index.is_some() {
            return Some(
                "--partition-index and --exclude-partition-index are mutually exclusive".to_owned(),
            );
        }
        let selected: Option<usize> = if self.partition_index.is_some() {
            self.partition_index
        } else {
            self.exclude_partition_index
        };
        match selected {
            Some(index) => if index >= self.partition_count {
                Some("partition index must be less than --partition-count".to_owned())
            } else {
                None
            },
            None => if self.partition_count > 1 {
                Some(
                    "--partition-count requires --partition-index or --exclude-partition-index".to_owned(),
                )
            } else {
                None
            },
        }
    }

    /// Reads a command line. `numbers` says of each argument what it reads as a number.
    pub fn parse(arguments: &[String], numbers: &[NumberBits]) -> (result: Result<Self, String>)
        requires
            numbers@.len() == arguments@.len(),
        ensures
            if arguments@.len() < 3 {
                result is Err && result->Err_0@ == DEVSET_USAGE@
            } else {
                match devset_read(
                    devset_initial(arguments@[0]@, arguments@[1]@, arguments@[2]@),
                    texts(arguments@),
                    numbers@,
                ) {
                    Err(error) => result is Err && result->Err_0@ == error,
                    Ok(read) => match devset_conflict(read) {
                        Some(error) => result is Err && result->Err_0@ == error,
                        None => result is Ok && result->Ok_0@ == read,
                    },
                }
            },
    {
        if arguments.len() < 3 {
            return Err(DEVSET_USAGE.to_owned());
        }
        let start: DevsetOptions = DevsetOptions::start(
            arguments[0].clone(),
            arguments[1].clone(),
            arguments[2].clone(),
        );
        let read: DevsetOptions = match start.read(arguments, numbers) {
            Ok(read) => read,
            Err(error) => return Err(error),
        };
        match read.first_conflict() {
            Some(error) => Err(error),
            None => Ok(read),
        }
    }
}

/// Options that were accepted name at most one partition, and one that exists.
pub proof fn accepted_partitions_exist(options: DevsetOptionsView)
    requires
        devset_conflict(options) is None,
    ensures
        options.count > 0,
        options.partition_count > 0,
        options.partition_index matches Some(index) ==> index < options.partition_count,
        options.exclude_partition_index matches Some(index) ==> index < options.partition_count,
        !(options.partition_index is Some && options.exclude_partition_index is Some),
{
}

} // verus!
