//! The options of a rule generation.

use vstd::prelude::*;
use vstd::string::*;

use crate::arguments::{
    given_from, given_options, message, names, Given, NumberBits, Stop,
};
use crate::context_rules::{Thresholds, MAX_RULES};
use crate::evaluation_options::{agrees, optional_text, push_text};
use crate::text::{
    count_text, decimal, joined, read_unsigned, same_text, texts, unsigned_value,
};
verus! {

/// How to call the rule generation.
pub const RULES_USAGE: &'static str =
    "usage: slime-context-rules --input PATH [--input PATH ...] --output OUTPUT.tsv \\\n  [--exclude-input PATH ...] [--dictionary PATH ...] [--min-count N] \\\n  [--min-margin N] [--min-share-bps N] [--max-rules N] [--json]\ncorpus format: whitespace-separated surface/reading tokens\ndictionary format: reading<TAB>surface[<TAB>cost]";

/// How often a surface has to be seen if nothing else is asked for.
pub const DEFAULT_MINIMUM_COUNT: u32 = 3;

/// By how much it has to lead.
pub const DEFAULT_MINIMUM_MARGIN: u32 = 2;

/// Its share of all observations in hundredths of a percent.
pub const DEFAULT_MINIMUM_SHARE_BASIS_POINTS: u16 = 7_500;

/// How many rules are kept.
pub const DEFAULT_MAXIMUM_RULES: usize = 10_000;

/// The options that take a value.
pub const RULES_VALUED: [&'static str; 8] = [
    "--input",
    "--exclude-input",
    "--dictionary",
    "--output",
    "--min-count",
    "--min-margin",
    "--min-share-bps",
    "--max-rules",
];

/// The options that take no value.
pub const RULES_FLAGS: [&'static str; 3] = ["--json", "--help", "-h"];

/// The options while they are read.
#[derive(Debug, PartialEq, Eq)]
pub struct RuleOptionsBuilder {
    pub inputs: Vec<String>,
    pub exclusion_inputs: Vec<String>,
    pub dictionaries: Vec<String>,
    pub output: Option<String>,
    pub minimum_count: u32,
    pub minimum_margin: u32,
    pub minimum_share_basis_points: u16,
    pub maximum_rules: usize,
    pub json: bool,
}

/// The mathematical value of the options while they are read.
pub ghost struct RuleOptionsBuilderView {
    pub inputs: Seq<Seq<char>>,
    pub exclusion_inputs: Seq<Seq<char>>,
    pub dictionaries: Seq<Seq<char>>,
    pub output: Option<Seq<char>>,
    pub minimum_count: u32,
    pub minimum_margin: u32,
    pub minimum_share_basis_points: u16,
    pub maximum_rules: usize,
    pub json: bool,
}

impl View for RuleOptionsBuilder {
    type V = RuleOptionsBuilderView;

    open spec fn view(&self) -> RuleOptionsBuilderView {
        RuleOptionsBuilderView {
            inputs: texts(self.inputs@),
            exclusion_inputs: texts(self.exclusion_inputs@),
            dictionaries: texts(self.dictionaries@),
            output: optional_text(self.output),
            minimum_count: self.minimum_count,
            minimum_margin: self.minimum_margin,
            minimum_share_basis_points: self.minimum_share_basis_points,
            maximum_rules: self.maximum_rules,
            json: self.json,
        }
    }
}

/// The value of an option that takes a number of 32 bits other than zero.
pub open spec fn rules_positive(name: Seq<char>, value: Seq<char>, number: NumberBits) -> Result<
    u32,
    Seq<char>,
> {
    match unsigned_value(value) {
        Some(found) => if 0 < found <= u32::MAX {
            Ok(found as u32)
        } else {
            Err(name + " requires a positive integer"@)
        },
        None => Err(name + " requires a positive integer"@),
    }
}

fn parse_positive_u32(name: &str, value: &str, number: NumberBits) -> (result: Result<u32, String>)
    ensures
        agrees(result, rules_positive(name@, value@, number)),
{
    match read_unsigned(value, u32::MAX as u64) {
        Some(found) => if found > 0 {
            Ok(found as u32)
        } else {
            Err(message(name, " requires a positive integer"))
        },
        None => Err(message(name, " requires a positive integer")),
    }
}

/// The value of an option that takes hundredths of a percent.
pub open spec fn rules_share(name: Seq<char>, value: Seq<char>, number: NumberBits) -> Result<
    u16,
    Seq<char>,
> {
    match rules_positive(name, value, number) {
        Ok(found) => if found <= 10_000 {
            Ok(found as u16)
        } else {
            Err("--min-share-bps must be between 1 and 10000"@)
        },
        Err(error) => Err(error),
    }
}

fn parse_share(name: &str, value: &str, number: NumberBits) -> (result: Result<u16, String>)
    ensures
        agrees(result, rules_share(name@, value@, number)),
{
    match parse_positive_u32(name, value, number) {
        Ok(found) => if found <= 10_000 {
            Ok(found as u16)
        } else {
            Err("--min-share-bps must be between 1 and 10000".to_owned())
        },
        Err(error) => Err(error),
    }
}

/// The value of an option that takes a number of rules.
pub open spec fn rules_limit(name: Seq<char>, value: Seq<char>, number: NumberBits) -> Result<
    usize,
    Seq<char>,
> {
    match rules_positive(name, value, number) {
        Ok(found) => if found <= MAX_RULES {
            Ok(found as usize)
        } else {
            Err("--max-rules cannot exceed "@ + decimal(MAX_RULES as nat))
        },
        Err(error) => Err(error),
    }
}

fn parse_limit(name: &str, value: &str, number: NumberBits) -> (result: Result<usize, String>)
    ensures
        agrees(result, rules_limit(name@, value@, number)),
{
    match parse_positive_u32(name, value, number) {
        Ok(found) => if found as u64 <= MAX_RULES as u64 {
            Ok(found as usize)
        } else {
            let limit: String = count_text(MAX_RULES);
            Err(joined("--max-rules cannot exceed ", limit.as_str()))
        },
        Err(error) => Err(error),
    }
}

/// The options before any argument is read.
pub open spec fn rules_initial() -> RuleOptionsBuilderView {
    RuleOptionsBuilderView {
        inputs: Seq::empty(),
        exclusion_inputs: Seq::empty(),
        dictionaries: Seq::empty(),
        output: None,
        minimum_count: DEFAULT_MINIMUM_COUNT,
        minimum_margin: DEFAULT_MINIMUM_MARGIN,
        minimum_share_basis_points: DEFAULT_MINIMUM_SHARE_BASIS_POINTS,
        maximum_rules: DEFAULT_MAXIMUM_RULES,
        json: false,
    }
}

/// The options after one more option with its value.
pub open spec fn rules_value(
    options: RuleOptionsBuilderView,
    name: Seq<char>,
    value: Seq<char>,
    number: NumberBits,
) -> Result<RuleOptionsBuilderView, Seq<char>> {
    if name == "--input"@ {
        Ok(RuleOptionsBuilderView { inputs: options.inputs.push(value), ..options })
    } else if name == "--exclude-input"@ {
        Ok(RuleOptionsBuilderView { exclusion_inputs: options.exclusion_inputs.push(value), ..options })
    } else if name == "--dictionary"@ {
        Ok(RuleOptionsBuilderView { dictionaries: options.dictionaries.push(value), ..options })
    } else if name == "--output"@ {
        if options.output is Some {
            Err("--output is duplicated"@)
        } else {
            Ok(RuleOptionsBuilderView { output: Some(value), ..options })
        }
    } else if name == "--min-count"@ {
        match rules_positive(name, value, number) {
            Ok(found) => Ok(RuleOptionsBuilderView { minimum_count: found, ..options }),
            Err(error) => Err(error),
        }
    } else if name == "--min-margin"@ {
        match rules_positive(name, value, number) {
            Ok(found) => Ok(RuleOptionsBuilderView { minimum_margin: found, ..options }),
            Err(error) => Err(error),
        }
    } else if name == "--min-share-bps"@ {
        match rules_share(name, value, number) {
            Ok(found) => Ok(RuleOptionsBuilderView { minimum_share_basis_points: found, ..options }),
            Err(error) => Err(error),
        }
    } else if name == "--max-rules"@ {
        match rules_limit(name, value, number) {
            Ok(found) => Ok(RuleOptionsBuilderView { maximum_rules: found, ..options }),
            Err(error) => Err(error),
        }
    } else {
        Ok(options)
    }
}

/// The options after one more flag.
pub open spec fn rules_flag(options: RuleOptionsBuilderView, name: Seq<char>) -> Result<RuleOptionsBuilderView, Seq<char>> {
    if name == "--json"@ {
        if options.json {
            Err("--json is duplicated"@)
        } else {
            Ok(RuleOptionsBuilderView { json: true, ..options })
        }
    } else if name == "--help"@ {
        Err(RULES_USAGE@)
    } else if name == "-h"@ {
        Err(RULES_USAGE@)
    } else {
        Ok(options)
    }
}

/// The options after one more argument.
pub open spec fn rules_argument(
    options: RuleOptionsBuilderView,
    arguments: Seq<Seq<char>>,
    numbers: Seq<NumberBits>,
    item: Given,
) -> Result<RuleOptionsBuilderView, Seq<char>> {
    match item.value {
        Some(value) => rules_value(
            options,
            arguments[item.at as int],
            arguments[value as int],
            numbers[value as int],
        ),
        None => rules_flag(options, arguments[item.at as int]),
    }
}

/// The options after the first `count` arguments, or the error of the first that cannot be
/// taken.
pub open spec fn rules_arguments(
    options: RuleOptionsBuilderView,
    arguments: Seq<Seq<char>>,
    numbers: Seq<NumberBits>,
    items: Seq<Given>,
    count: int,
) -> Result<RuleOptionsBuilderView, Seq<char>>
    decreases count,
{
    if count <= 0 {
        Ok(options)
    } else {
        match rules_arguments(options, arguments, numbers, items, count - 1) {
            Ok(before) => rules_argument(before, arguments, numbers, items[count - 1]),
            Err(error) => Err(error),
        }
    }
}

proof fn rules_error_stays(
    options: RuleOptionsBuilderView,
    arguments: Seq<Seq<char>>,
    numbers: Seq<NumberBits>,
    items: Seq<Given>,
    low: int,
    high: int,
)
    requires
        rules_arguments(options, arguments, numbers, items, low) is Err,
        0 <= low <= high,
    ensures
        rules_arguments(options, arguments, numbers, items, high) == rules_arguments(
            options,
            arguments,
            numbers,
            items,
            low,
        ),
    decreases high - low,
{
    if low < high {
        rules_error_stays(options, arguments, numbers, items, low, high - 1);
    }
}

/// The error for an option whose value is missing. A second output is refused before its value
/// is looked for.
pub open spec fn rules_missing(options: RuleOptionsBuilderView, name: Seq<char>) -> Seq<char> {
    if name == "--output"@ && options.output is Some {
        "--output is duplicated"@
    } else {
        name + " requires a value"@
    }
}

fn missing(options: &RuleOptionsBuilder, name: &str) -> (result: String)
    ensures
        result@ == rules_missing(options@, name@),
{
    if same_text(name, "--output") && options.output.is_some() {
        "--output is duplicated".to_owned()
    } else {
        message(name, " requires a value")
    }
}

/// What is read from the arguments from the first on.
pub open spec fn rules_read(
    start: RuleOptionsBuilderView,
    arguments: Seq<Seq<char>>,
    numbers: Seq<NumberBits>,
) -> Result<RuleOptionsBuilderView, Seq<char>> {
    let (items, stop) = given_from(
        arguments,
        names(RULES_VALUED@),
        names(RULES_FLAGS@),
        false,
        0,
    );
    match rules_arguments(start, arguments, numbers, items, items.len() as int) {
        Err(error) => Err(error),
        Ok(options) => match stop {
            Stop::End => Ok(options),
            Stop::Unknown(at) => Err("unknown option\n"@ + RULES_USAGE@),
            Stop::Missing(at) => Err(rules_missing(options, arguments[at as int])),
        },
    }
}

impl RuleOptionsBuilder {
    fn start() -> (result: Self)
        ensures
            result@ == rules_initial(),
    {
        let result: RuleOptionsBuilder = RuleOptionsBuilder {
            inputs: Vec::new(),
            exclusion_inputs: Vec::new(),
            dictionaries: Vec::new(),
            output: None,
            minimum_count: DEFAULT_MINIMUM_COUNT,
            minimum_margin: DEFAULT_MINIMUM_MARGIN,
            minimum_share_basis_points: DEFAULT_MINIMUM_SHARE_BASIS_POINTS,
            maximum_rules: DEFAULT_MAXIMUM_RULES,
            json: false,
        };
        assert(texts(result.inputs@) =~= Seq::<Seq<char>>::empty());
        assert(texts(result.exclusion_inputs@) =~= Seq::<Seq<char>>::empty());
        assert(texts(result.dictionaries@) =~= Seq::<Seq<char>>::empty());
        result
    }

    fn set_value(&mut self, name: &str, value: &str, number: NumberBits) -> (result: Result<
        (),
        String,
    >)
        ensures
            match rules_value(old(self)@, name@, value@, number) {
                Ok(options) => result is Ok && final(self)@ == options,
                Err(error) => result is Err && result->Err_0@ == error,
            },
    {
        if same_text(name, "--input") {
            push_text(&mut self.inputs, value);
        } else if same_text(name, "--exclude-input") {
            push_text(&mut self.exclusion_inputs, value);
        } else if same_text(name, "--dictionary") {
            push_text(&mut self.dictionaries, value);
        } else if same_text(name, "--output") {
            if self.output.is_some() {
                return Err("--output is duplicated".to_owned());
            }
            self.output = Some(value.to_owned());
        } else if same_text(name, "--min-count") {
            self.minimum_count = match parse_positive_u32(name, value, number) {
                Ok(found) => found,
                Err(error) => return Err(error),
            };
        } else if same_text(name, "--min-margin") {
            self.minimum_margin = match parse_positive_u32(name, value, number) {
                Ok(found) => found,
                Err(error) => return Err(error),
            };
        } else if same_text(name, "--min-share-bps") {
            self.minimum_share_basis_points = match parse_share(name, value, number) {
                Ok(found) => found,
                Err(error) => return Err(error),
            };
        } else if same_text(name, "--max-rules") {
            self.maximum_rules = match parse_limit(name, value, number) {
                Ok(found) => found,
                Err(error) => return Err(error),
            };
        }
        Ok(())
    }

    fn set_flag(&mut self, name: &str) -> (result: Result<(), String>)
        ensures
            match rules_flag(old(self)@, name@) {
                Ok(options) => result is Ok && final(self)@ == options,
                Err(error) => result is Err && result->Err_0@ == error,
            },
    {
        if same_text(name, "--json") {
            if self.json {
                return Err("--json is duplicated".to_owned());
            }
            self.json = true;
        } else if same_text(name, "--help") {
            return Err(RULES_USAGE.to_owned());
        } else if same_text(name, "-h") {
            return Err(RULES_USAGE.to_owned());
        }
        Ok(())
    }

    fn set_argument(&mut self, arguments: &[String], numbers: &[NumberBits], item: Given) -> (result:
        Result<(), String>)
        requires
            numbers@.len() == arguments@.len(),
            item.at < arguments@.len(),
            item.value matches Some(value) ==> value < arguments@.len(),
        ensures
            match rules_argument(old(self)@, texts(arguments@), numbers@, item) {
                Ok(options) => result is Ok && final(self)@ == options,
                Err(error) => result is Err && result->Err_0@ == error,
            },
    {
        let name: &str = arguments[item.at].as_str();
        assert(texts(arguments@)[item.at as int] == name@);
        match item.value {
            Some(value) => {
                assert(texts(arguments@)[value as int] == arguments@[value as int]@);
                self.set_value(name, arguments[value].as_str(), numbers[value])
            },
            None => self.set_flag(name),
        }
    }

    fn read(self, arguments: &[String], numbers: &[NumberBits]) -> (result: Result<Self, String>)
        requires
            numbers@.len() == arguments@.len(),
        ensures
            match rules_read(self@, texts(arguments@), numbers@) {
                Ok(options) => result is Ok && result->Ok_0@ == options,
                Err(error) => result is Err && result->Err_0@ == error,
            },
    {
        let valued: [&'static str; 8] = RULES_VALUED;
        let flags: [&'static str; 3] = RULES_FLAGS;
        let (items, stop) = given_options(
            arguments,
            valued.as_slice(),
            flags.as_slice(),
            false,
            0,
        );
        let ghost all = texts(arguments@);
        let ghost start = self@;
        let mut options: RuleOptionsBuilder = self;
        for index in 0..items.len()
            invariant
                all == texts(arguments@),
                numbers@.len() == arguments@.len(),
                forall|i: int|
                    0 <= i < items@.len() ==> (#[trigger] items@[i]).at < arguments@.len() && (
                    items@[i].value matches Some(value) ==> value < arguments@.len()),
                rules_arguments(start, all, numbers@, items@, index as int) == Ok::<
                    RuleOptionsBuilderView,
                    Seq<char>,
                >(options@),
                start == self@,
                (items@, stop) == given_from(
                    all,
                    names(RULES_VALUED@),
                    names(RULES_FLAGS@),
                    false,
                    0,
                ),
        {
            match options.set_argument(arguments, numbers, items[index]) {
                Ok(()) => {},
                Err(error) => {
                    proof {
                        rules_error_stays(
                            start,
                            all,
                            numbers@,
                            items@,
                            index + 1,
                            items@.len() as int,
                        );
                    }
                    return Err(error);
                },
            }
        }
        match stop {
            Stop::End => Ok(options),
            Stop::Unknown(at) => {
                assert(all[at as int] == arguments@[at as int]@);
                Err(joined("unknown option\n", RULES_USAGE))
            },
            Stop::Missing(at) => {
                assert(all[at as int] == arguments@[at as int]@);
                Err(missing(&options, arguments[at].as_str()))
            },
        }
    }
}

/// The options of a rule generation.
#[derive(Debug, PartialEq, Eq)]
pub struct RuleOptions {
    pub inputs: Vec<String>,
    pub exclusion_inputs: Vec<String>,
    pub dictionaries: Vec<String>,
    pub output: String,
    pub thresholds: Thresholds,
    pub json: bool,
}

impl RuleOptions {
    /// The options as they were read.
    pub open spec fn built(self) -> RuleOptionsBuilderView {
        RuleOptionsBuilderView {
            inputs: texts(self.inputs@),
            exclusion_inputs: texts(self.exclusion_inputs@),
            dictionaries: texts(self.dictionaries@),
            output: Some(self.output@),
            minimum_count: self.thresholds.minimum_count,
            minimum_margin: self.thresholds.minimum_margin,
            minimum_share_basis_points: self.thresholds.minimum_share_basis_points,
            maximum_rules: self.thresholds.maximum_rules,
            json: self.json,
        }
    }

    /// Reads a command line. `numbers` says of each argument what it reads as a number.
    pub fn parse(arguments: &[String], numbers: &[NumberBits]) -> (result: Result<Self, String>)
        requires
            numbers@.len() == arguments@.len(),
        ensures
            match rules_read(rules_initial(), texts(arguments@), numbers@) {
                Err(error) => result is Err && result->Err_0@ == error,
                Ok(read) => if read.inputs.len() == 0 || read.output is None {
                    result is Err && result->Err_0@ == RULES_USAGE@
                } else {
                    result is Ok && result->Ok_0.built() == read
                },
            },
    {
        let read: RuleOptionsBuilder = match RuleOptionsBuilder::start().read(arguments, numbers) {
            Ok(read) => read,
            Err(error) => return Err(error),
        };
        if read.inputs.len() == 0 {
            return Err(RULES_USAGE.to_owned());
        }
        match read.output {
            None => Err(RULES_USAGE.to_owned()),
            Some(output) => Ok(
                RuleOptions {
                    inputs: read.inputs,
                    exclusion_inputs: read.exclusion_inputs,
                    dictionaries: read.dictionaries,
                    output,
                    thresholds: Thresholds {
                        minimum_count: read.minimum_count,
                        minimum_margin: read.minimum_margin,
                        minimum_share_basis_points: read.minimum_share_basis_points,
                        maximum_rules: read.maximum_rules,
                    },
                    json: read.json,
                },
            ),
        }
    }
}

} // verus!
