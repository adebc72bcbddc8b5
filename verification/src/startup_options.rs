//! The options of a startup evaluation.

use vstd::prelude::*;
use vstd::string::*;

use crate::arguments::{
    count_of, count_value, finite_non_negative, given_from, given_options, is_finite_non_negative,
    message, names, Given, NumberBits, Stop,
};
use crate::evaluation_options::{agrees, optional_text};
use crate::text::{read_unsigned, same_text, texts, unsigned_value};
verus! {

/// The fewest measurements.
pub const MIN_ITERATIONS: usize = 3;

/// The most measurements.
pub const MAX_ITERATIONS: usize = 21;

/// How to call the startup evaluation.
pub const STARTUP_USAGE: &'static str =
    "usage: slime-pack-startup-evaluate --data-dir PATH [--baseline-data-dir PATH] \
     [--iterations N] [--max-median-ms N] [--max-p95-ms N] [--max-rss-bytes N] \
     [--max-median-delta-ms N] [--max-p95-delta-ms N] [--max-rss-delta-bytes N] \
     [--verification-keys PATH --version-floors PATH --expected-packs N \
      --baseline-expected-packs N] [--json]";

/// The options that take a value.
pub const STARTUP_VALUED: [&'static str; 13] = [
    "--data-dir",
    "--baseline-data-dir",
    "--iterations",
    "--max-median-ms",
    "--max-p95-ms",
    "--max-rss-bytes",
    "--max-median-delta-ms",
    "--max-p95-delta-ms",
    "--max-rss-delta-bytes",
    "--verification-keys",
    "--version-floors",
    "--expected-packs",
    "--baseline-expected-packs",
];

/// The options that take no value.
pub const STARTUP_FLAGS: [&'static str; 3] = ["--json", "--help", "-h"];

/// The options while they are read.
#[derive(Debug, PartialEq, Eq)]
pub struct StartupOptionsBuilder {
    pub data_directory: Option<String>,
    pub baseline_data_directory: Option<String>,
    pub iterations: Option<usize>,
    pub max_median_ms: Option<u64>,
    pub max_p95_ms: Option<u64>,
    pub max_rss_bytes: Option<u64>,
    pub max_median_delta_ms: Option<u64>,
    pub max_p95_delta_ms: Option<u64>,
    pub max_rss_delta_bytes: Option<u64>,
    pub verification_keys: Option<String>,
    pub version_floors: Option<String>,
    pub expected_packs: Option<usize>,
    pub baseline_expected_packs: Option<usize>,
    pub json: bool,
}

/// The mathematical value of the options while they are read.
pub ghost struct StartupOptionsBuilderView {
    pub data_directory: Option<Seq<char>>,
    pub baseline_data_directory: Option<Seq<char>>,
    pub iterations: Option<usize>,
    pub max_median_ms: Option<u64>,
    pub max_p95_ms: Option<u64>,
    pub max_rss_bytes: Option<u64>,
    pub max_median_delta_ms: Option<u64>,
    pub max_p95_delta_ms: Option<u64>,
    pub max_rss_delta_bytes: Option<u64>,
    pub verification_keys: Option<Seq<char>>,
    pub version_floors: Option<Seq<char>>,
    pub expected_packs: Option<usize>,
    pub baseline_expected_packs: Option<usize>,
    pub json: bool,
}

impl View for StartupOptionsBuilder {
    type V = StartupOptionsBuilderView;

    open spec fn view(&self) -> StartupOptionsBuilderView {
        StartupOptionsBuilderView {
            data_directory: optional_text(self.data_directory),
            baseline_data_directory: optional_text(self.baseline_data_directory),
            iterations: self.iterations,
            max_median_ms: self.max_median_ms,
            max_p95_ms: self.max_p95_ms,
            max_rss_bytes: self.max_rss_bytes,
            max_median_delta_ms: self.max_median_delta_ms,
            max_p95_delta_ms: self.max_p95_delta_ms,
            max_rss_delta_bytes: self.max_rss_delta_bytes,
            verification_keys: optional_text(self.verification_keys),
            version_floors: optional_text(self.version_floors),
            expected_packs: self.expected_packs,
            baseline_expected_packs: self.baseline_expected_packs,
            json: self.json,
        }
    }
}

/// The value of an option that takes a count.
pub open spec fn startup_count(name: Seq<char>, value: Seq<char>, number: NumberBits) -> Result<
    usize,
    Seq<char>,
> {
    match count_value(value) {
        Some(count) => Ok(count),
        None => Err(name + " requires an integer"@),
    }
}

fn parse_usize(name: &str, value: &str, number: NumberBits) -> (result: Result<usize, String>)
    ensures
        agrees(result, startup_count(name@, value@, number)),
{
    match count_of(value) {
        Some(count) => Ok(count),
        None => Err(message(name, " requires an integer")),
    }
}

/// The value of an option that takes a number of bytes.
pub open spec fn startup_bytes(name: Seq<char>, value: Seq<char>, number: NumberBits) -> Result<
    u64,
    Seq<char>,
> {
    match unsigned_value(value) {
        Some(found) => if found <= u64::MAX {
            Ok(found as u64)
        } else {
            Err(name + " requires an integer"@)
        },
        None => Err(name + " requires an integer"@),
    }
}

fn parse_u64(name: &str, value: &str, number: NumberBits) -> (result: Result<u64, String>)
    ensures
        agrees(result, startup_bytes(name@, value@, number)),
{
    match read_unsigned(value, u64::MAX) {
        Some(found) => Ok(found),
        None => Err(message(name, " requires an integer")),
    }
}

/// The value of an option that takes milliseconds.
pub open spec fn startup_milliseconds(
    name: Seq<char>,
    value: Seq<char>,
    number: NumberBits,
) -> Result<u64, Seq<char>> {
    match number.double {
        Some(bits) => if is_finite_non_negative(bits) {
            Ok(bits)
        } else {
            Err(name + " requires a finite non-negative number"@)
        },
        None => Err(name + " requires a number"@),
    }
}

fn parse_non_negative(name: &str, value: &str, number: NumberBits) -> (result: Result<u64, String>)
    ensures
        agrees(result, startup_milliseconds(name@, value@, number)),
{
    match number.double {
        Some(bits) => if finite_non_negative(bits) {
            Ok(bits)
        } else {
            Err(message(name, " requires a finite non-negative number"))
        },
        None => Err(message(name, " requires a number")),
    }
}

/// The options before any argument is read.
pub open spec fn startup_initial() -> StartupOptionsBuilderView {
    StartupOptionsBuilderView {
        data_directory: None,
        baseline_data_directory: None,
        iterations: None,
        max_median_ms: None,
        max_p95_ms: None,
        max_rss_bytes: None,
        max_median_delta_ms: None,
        max_p95_delta_ms: None,
        max_rss_delta_bytes: None,
        verification_keys: None,
        version_floors: None,
        expected_packs: None,
        baseline_expected_packs: None,
        json: false,
    }
}

/// The options after one more option with its value.
pub open spec fn startup_value(
    options: StartupOptionsBuilderView,
    name: Seq<char>,
    value: Seq<char>,
    number: NumberBits,
) -> Result<StartupOptionsBuilderView, Seq<char>> {
    if name == "--data-dir"@ {
        Ok(StartupOptionsBuilderView { data_directory: Some(value), ..options })
    } else if name == "--baseline-data-dir"@ {
        Ok(StartupOptionsBuilderView { baseline_data_directory: Some(value), ..options })
    } else if name == "--iterations"@ {
        match startup_count(name, value, number) {
            Ok(found) => Ok(StartupOptionsBuilderView { iterations: Some(found), ..options }),
            Err(error) => Err(error),
        }
    } else if name == "--max-median-ms"@ {
        match startup_milliseconds(name, value, number) {
            Ok(found) => Ok(StartupOptionsBuilderView { max_median_ms: Some(found), ..options }),
            Err(error) => Err(error),
        }
    } else if name == "--max-p95-ms"@ {
        match startup_milliseconds(name, value, number) {
            Ok(found) => Ok(StartupOptionsBuilderView { max_p95_ms: Some(found), ..options }),
            Err(error) => Err(error),
        }
    } else if name == "--max-rss-bytes"@ {
        match startup_bytes(name, value, number) {
            Ok(found) => Ok(StartupOptionsBuilderView { max_rss_bytes: Some(found), ..options }),
            Err(error) => Err(error),
        }
    } else if name == "--max-median-delta-ms"@ {
        match startup_milliseconds(name, value, number) {
            Ok(found) => Ok(StartupOptionsBuilderView { max_median_delta_ms: Some(found), ..options }),
            Err(error) => Err(error),
        }
    } else if name == "--max-p95-delta-ms"@ {
        match startup_milliseconds(name, value, number) {
            Ok(found) => Ok(StartupOptionsBuilderView { max_p95_delta_ms: Some(found), ..options }),
            Err(error) => Err(error),
        }
    } else if name == "--max-rss-delta-bytes"@ {
        match startup_bytes(name, value, number) {
            Ok(found) => Ok(StartupOptionsBuilderView { max_rss_delta_bytes: Some(found), ..options }),
            Err(error) => Err(error),
        }
    } else if name == "--verification-keys"@ {
        Ok(StartupOptionsBuilderView { verification_keys: Some(value), ..options })
    } else if name == "--version-floors"@ {
        Ok(StartupOptionsBuilderView { version_floors: Some(value), ..options })
    } else if name == "--expected-packs"@ {
        match startup_count(name, value, number) {
            Ok(found) => Ok(StartupOptionsBuilderView { expected_packs: Some(found), ..options }),
            Err(error) => Err(error),
        }
    } else if name == "--baseline-expected-packs"@ {
        match startup_count(name, value, number) {
            Ok(found) => Ok(StartupOptionsBuilderView { baseline_expected_packs: Some(found), ..options }),
            Err(error) => Err(error),
        }
    } else {
        Ok(options)
    }
}

/// The options after one more flag.
pub open spec fn startup_flag(options: StartupOptionsBuilderView, name: Seq<char>) -> Result<StartupOptionsBuilderView, Seq<char>> {
    if name == "--json"@ {
        Ok(StartupOptionsBuilderView { json: true, ..options })
    } else if name == "--help"@ {
        Err(STARTUP_USAGE@)
    } else if name == "-h"@ {
        Err(STARTUP_USAGE@)
    } else {
        Ok(options)
    }
}

/// The options after one more argument.
pub open spec fn startup_argument(
    options: StartupOptionsBuilderView,
    arguments: Seq<Seq<char>>,
    numbers: Seq<NumberBits>,
    item: Given,
) -> Result<StartupOptionsBuilderView, Seq<char>> {
    match item.value {
        Some(value) => startup_value(
            options,
            arguments[item.at as int],
            arguments[value as int],
            numbers[value as int],
        ),
        None => startup_flag(options, arguments[item.at as int]),
    }
}

/// The options after the first `count` arguments, or the error of the first that cannot be
/// taken.
pub open spec fn startup_arguments(
    options: StartupOptionsBuilderView,
    arguments: Seq<Seq<char>>,
    numbers: Seq<NumberBits>,
    items: Seq<Given>,
    count: int,
) -> Result<StartupOptionsBuilderView, Seq<char>>
    decreases count,
{
    if count <= 0 {
        Ok(options)
    } else {
        match startup_arguments(options, arguments, numbers, items, count - 1) {
            Ok(before) => startup_argument(before, arguments, numbers, items[count - 1]),
            Err(error) => Err(error),
        }
    }
}

proof fn startup_error_stays(
    options: StartupOptionsBuilderView,
    arguments: Seq<Seq<char>>,
    numbers: Seq<NumberBits>,
    items: Seq<Given>,
    low: int,
    high: int,
)
    requires
        startup_arguments(options, arguments, numbers, items, low) is Err,
        0 <= low <= high,
    ensures
        startup_arguments(options, arguments, numbers, items, high) == startup_arguments(
            options,
            arguments,
            numbers,
            items,
            low,
        ),
    decreases high - low,
{
    if low < high {
        startup_error_stays(options, arguments, numbers, items, low, high - 1);
    }
}

/// The error for an option whose value is missing.
pub open spec fn startup_missing(name: Seq<char>) -> Seq<char> {
    name + " requires a value"@
}

fn missing(name: &str) -> (result: String)
    ensures
        result@ == startup_missing(name@),
{
    message(name, " requires a value")
}

/// Whether a number of packs is possible.
pub open spec fn is_pack_count(count: usize) -> bool {
    1 <= count <= 64
}

/// The first rule that the options break, if any. Keys, version floors and the number of packs
/// are given together or not at all.
pub open spec fn startup_conflict(options: StartupOptionsBuilderView) -> Option<Seq<char>> {
    let iterations = match options.iterations {
        Some(count) => count,
        None => 5,
    };
    let signed = options.verification_keys is Some && options.version_floors is Some
        && options.expected_packs is Some;
    let unsigned = options.verification_keys is None && options.version_floors is None
        && options.expected_packs is None;
    if !(MIN_ITERATIONS <= iterations <= MAX_ITERATIONS) {
        Some("--iterations must be between 3 and 21"@)
    } else if options.baseline_data_directory is None && (options.max_median_delta_ms is Some
        || options.max_p95_delta_ms is Some || options.max_rss_delta_bytes is Some) {
        Some("startup delta limits require --baseline-data-dir"@)
    } else if !signed && !unsigned {
        Some("signed startup evaluation requires keys, floors, and expected pack count"@)
    } else if options.expected_packs is Some && !is_pack_count(options.expected_packs->0) {
        Some("--expected-packs must be between 1 and 64"@)
    } else if options.baseline_expected_packs is Some && !is_pack_count(
        options.baseline_expected_packs->0,
    ) {
        Some("--baseline-expected-packs must be between 1 and 64"@)
    } else if options.verification_keys is Some && options.baseline_data_directory is Some
        && options.baseline_expected_packs is None {
        Some("signed baseline startup evaluation requires --baseline-expected-packs"@)
    } else if options.baseline_expected_packs is Some && (options.verification_keys is None
        || options.baseline_data_directory is None) {
        Some("--baseline-expected-packs requires signed baseline evaluation"@)
    } else if options.data_directory is None {
        Some(STARTUP_USAGE@)
    } else {
        None
    }
}

/// Options that were accepted sign everything or nothing, and measure often enough.
pub proof fn signed_options_are_all_or_nothing(options: StartupOptionsBuilderView)
    requires
        startup_conflict(options) is None,
    ensures
        options.verification_keys is Some <==> options.version_floors is Some,
        options.verification_keys is Some <==> options.expected_packs is Some,
        options.baseline_expected_packs is Some <==> options.verification_keys is Some
            && options.baseline_data_directory is Some,
        options.iterations matches Some(count) ==> MIN_ITERATIONS <= count <= MAX_ITERATIONS,
        options.expected_packs matches Some(count) ==> is_pack_count(count),
        options.data_directory is Some,
{
}

/// What is read from the arguments from the first on.
pub open spec fn startup_read(
    start: StartupOptionsBuilderView,
    arguments: Seq<Seq<char>>,
    numbers: Seq<NumberBits>,
) -> Result<StartupOptionsBuilderView, Seq<char>> {
    let (items, stop) = given_from(
        arguments,
        names(STARTUP_VALUED@),
        names(STARTUP_FLAGS@),
        false,
        0,
    );
    match startup_arguments(start, arguments, numbers, items, items.len() as int) {
        Err(error) => Err(error),
        Ok(options) => match stop {
            Stop::End => Ok(options),
            Stop::Unknown(at) => Err("unknown startup evaluation option"@),
            Stop::Missing(at) => Err(startup_missing(arguments[at as int])),
        },
    }
}

impl StartupOptionsBuilder {
    fn start() -> (result: Self)
        ensures
            result@ == startup_initial(),
    {
        let result: StartupOptionsBuilder = StartupOptionsBuilder {
            data_directory: None,
            baseline_data_directory: None,
            iterations: None,
            max_median_ms: None,
            max_p95_ms: None,
            max_rss_bytes: None,
            max_median_delta_ms: None,
            max_p95_delta_ms: None,
            max_rss_delta_bytes: None,
            verification_keys: None,
            version_floors: None,
            expected_packs: None,
            baseline_expected_packs: None,
            json: false,
        };
        result
    }

    fn set_value(&mut self, name: &str, value: &str, number: NumberBits) -> (result: Result<
        (),
        String,
    >)
        ensures
            match startup_value(old(self)@, name@, value@, number) {
                Ok(options) => result is Ok && final(self)@ == options,
                Err(error) => result is Err && result->Err_0@ == error,
            },
    {
        if same_text(name, "--data-dir") {
            self.data_directory = Some(value.to_owned());
        } else if same_text(name, "--baseline-data-dir") {
            self.baseline_data_directory = Some(value.to_owned());
        } else if same_text(name, "--iterations") {
            self.iterations = match parse_usize(name, value, number) {
                Ok(found) => Some(found),
                Err(error) => return Err(error),
            };
        } else if same_text(name, "--max-median-ms") {
            self.max_median_ms = match parse_non_negative(name, value, number) {
                Ok(found) => Some(found),
                Err(error) => return Err(error),
            };
        } else if same_text(name, "--max-p95-ms") {
            self.max_p95_ms = match parse_non_negative(name, value, number) {
                Ok(found) => Some(found),
                Err(error) => return Err(error),
            };
        } else if same_text(name, "--max-rss-bytes") {
            self.max_rss_bytes = match parse_u64(name, value, number) {
                Ok(found) => Some(found),
                Err(error) => return Err(error),
            };
        } else if same_text(name, "--max-median-delta-ms") {
            self.max_median_delta_ms = match parse_non_negative(name, value, number) {
                Ok(found) => Some(found),
                Err(error) => return Err(error),
            };
        } else if same_text(name, "--max-p95-delta-ms") {
            self.max_p95_delta_ms = match parse_non_negative(name, value, number) {
                Ok(found) => Some(found),
                Err(error) => return Err(error),
            };
        } else if same_text(name, "--max-rss-delta-bytes") {
            self.max_rss_delta_bytes = match parse_u64(name, value, number) {
                Ok(found) => Some(found),
                Err(error) => return Err(error),
            };
        } else if same_text(name, "--verification-keys") {
            self.verification_keys = Some(value.to_owned());
        } else if same_text(name, "--version-floors") {
            self.version_floors = Some(value.to_owned());
        } else if same_text(name, "--expected-packs") {
            self.expected_packs = match parse_usize(name, value, number) {
                Ok(found) => Some(found),
                Err(error) => return Err(error),
            };
        } else if same_text(name, "--baseline-expected-packs") {
            self.baseline_expected_packs = match parse_usize(name, value, number) {
                Ok(found) => Some(found),
                Err(error) => return Err(error),
            };
        }
        Ok(())
    }

    fn set_flag(&mut self, name: &str) -> (result: Result<(), String>)
        ensures
            match startup_flag(old(self)@, name@) {
                Ok(options) => result is Ok && final(self)@ == options,
                Err(error) => result is Err && result->Err_0@ == error,
            },
    {
        if same_text(name, "--json") {
            self.json = true;
        } else if same_text(name, "--help") {
            return Err(STARTUP_USAGE.to_owned());
        } else if same_text(name, "-h") {
            return Err(STARTUP_USAGE.to_owned());
        }
        Ok(())
    }

    fn set_argument(&mut self, arguments: &[String], numbers: &[NumberBits], item: Given) -> (result:
        Result<(), String>)
        requires
            numbers@.len() == arguments@.len(),
            item.at < arguments@.len(),
            item.value matches Some(value) ==> value < arguments@.len(),
        ensures
            match startup_argument(old(self)@, texts(arguments@), numbers@, item) {
                Ok(options) => result is Ok && final(self)@ == options,
                Err(error) => result is Err && result->Err_0@ == error,
            },
    {
        let name: &str = arguments[item.at].as_str();
        assert(texts(arguments@)[item.at as int] == name@);
        match item.value {
            Some(value) => {
                assert(texts(arguments@)[value as int] == arguments@[value as int]@);
                self.set_value(name, arguments[value].as_str(), numbers[value])
            },
            None => self.set_flag(name),
        }
    }

    fn read(self, arguments: &[String], numbers: &[NumberBits]) -> (result: Result<Self, String>)
        requires
            numbers@.len() == arguments@.len(),
        ensures
            match startup_read(self@, texts(arguments@), numbers@) {
                Ok(options) => result is Ok && result->Ok_0@ == options,
                Err(error) => result is Err && result->Err_0@ == error,
            },
    {
        let valued: [&'static str; 13] = STARTUP_VALUED;
        let flags: [&'static str; 3] = STARTUP_FLAGS;
        let (items, stop) = given_options(
            arguments,
            valued.as_slice(),
            flags.as_slice(),
            false,
            0,
        );
        let ghost all = texts(arguments@);
        let ghost start = self@;
        let mut options: StartupOptionsBuilder = self;
        for index in 0..items.len()
            invariant
                all == texts(arguments@),
                numbers@.len() == arguments@.len(),
                forall|i: int|
                    0 <= i < items@.len() ==> (#[trigger] items@[i]).at < arguments@.len() && (
                    items@[i].value matches Some(value) ==> value < arguments@.len()),
                startup_arguments(start, all, numbers@, items@, index as int) == Ok::<
                    StartupOptionsBuilderView,
                    Seq<char>,
                >(options@),
                start == self@,
                (items@, stop) == given_from(
                    all,
                    names(STARTUP_VALUED@),
                    names(STARTUP_FLAGS@),
                    false,
                    0,
                ),
        {
            match options.set_argument(arguments, numbers, items[index]) {
                Ok(()) => {},
                Err(error) => {
                    proof {
                        startup_error_stays(
                            start,
                            all,
                            numbers@,
                            items@,
                            index + 1,
                            items@.len() as int,
                        );
                    }
                    return Err(error);
                },
            }
        }
        match stop {
            Stop::End => Ok(options),
            Stop::Unknown(at) => {
                assert(all[at as int] == arguments@[at as int]@);
                Err("unknown startup evaluation option".to_owned())
            },
            Stop::Missing(at) => {
                assert(all[at as int] == arguments@[at as int]@);
                Err(missing(arguments[at].as_str()))
            },
        }
    }
}

/// The options of a startup evaluation.
#[derive(Debug, PartialEq, Eq)]
pub struct StartupOptions {
    pub data_directory: String,
    pub baseline_data_directory: Option<String>,
    pub iterations: usize,
    /// The bits of a double, as every other option in milliseconds.
    pub max_median_ms: Option<u64>,
    pub max_p95_ms: Option<u64>,
    pub max_rss_bytes: Option<u64>,
    pub max_median_delta_ms: Option<u64>,
    pub max_p95_delta_ms: Option<u64>,
    pub max_rss_delta_bytes: Option<u64>,
    pub verification_keys: Option<String>,
    pub version_floors: Option<String>,
    pub expected_packs: Option<usize>,
    pub baseline_expected_packs: Option<usize>,
    pub json: bool,
}

impl StartupOptions {
    /// The options as they were read, with the number of measurements filled in.
    pub open spec fn built(self) -> StartupOptionsBuilderView {
        StartupOptionsBuilderView {
            data_directory: Some(self.data_directory@),
            baseline_data_directory: optional_text(self.baseline_data_directory),
            iterations: Some(self.iterations),
            max_median_ms: self.max_median_ms,
            max_p95_ms: self.max_p95_ms,
            max_rss_bytes: self.max_rss_bytes,
            max_median_delta_ms: self.max_median_delta_ms,
            max_p95_delta_ms: self.max_p95_delta_ms,
            max_rss_delta_bytes: self.max_rss_delta_bytes,
            verification_keys: optional_text(self.verification_keys),
            version_floors: optional_text(self.version_floors),
            expected_packs: self.expected_packs,
            baseline_expected_packs: self.baseline_expected_packs,
            json: self.json,
        }
    }

    /// Reads a command line. `numbers` says of each argument what it reads as a number.
    pub fn parse(arguments: &[String], numbers: &[NumberBits]) -> (result: Result<Self, String>)
        requires
            numbers@.len() == arguments@.len(),
        ensures
            match startup_read(startup_initial(), texts(arguments@), numbers@) {
                Err(error) => result is Err && result->Err_0@ == error,
                Ok(read) => match startup_conflict(read) {
                    Some(error) => result is Err && result->Err_0@ == error,
                    None => result is Ok && result->Ok_0.built() == startup_completed(read),
                },
            },
    {
        match StartupOptionsBuilder::start().read(arguments, numbers) {
            Ok(read) => read.finish(),
            Err(error) => Err(error),
        }
    }
}

/// The options with the number of measurements filled in.
pub open spec fn startup_completed(options: StartupOptionsBuilderView) -> StartupOptionsBuilderView {
    StartupOptionsBuilderView {
        iterations: Some(
            match options.iterations {
                Some(count) => count,
                None => 5,
            },
        ),
        ..options
    }
}

impl StartupOptionsBuilder {
    fn first_conflict(&self) -> (result: Option<String>)
        ensures
            optional_text(result) == startup_conflict(self@),
    {
        let iterations: usize = match self.iterations {
            Some(count) => count,
            None => 5,
        };
        if iterations < MIN_ITERATIONS || iterations > MAX_ITERATIONS {
            return Some("--iterations must be between 3 and 21".to_owned());
        }
        if self.baseline_data_directory.is_none() && (self.max_median_delta_ms.is_some()
            || self.max_p95_delta_ms.is_some() || self.max_rss_delta_bytes.is_some()) {
            return Some("startup delta limits require --baseline-data-dir".to_owned());
        }
        let keys: bool = self.verification_keys.is_some();
        let floors: bool = self.version_floors.is_some();
        let expected: bool = self.expected_packs.is_some();
        if !(keys && floors && expected) && (keys || floors || expected) {
            return Some(
                "signed startup evaluation requires keys, floors, and expected pack count".to_owned(),
            );
        }
        if let Some(count) = self.expected_packs {
            if count < 1 || count > 64 {
                return Some("--expected-packs must be between 1 and 64".to_owned());
            }
        }
        if let Some(count) = self.baseline_expected_packs {
            if count < 1 || count > 64 {
                return Some("--baseline-expected-packs must be between 1 and 64".to_owned());
            }
        }
        let baseline: bool = self.baseline_data_directory.is_some();
        if keys && baseline && self.baseline_expected_packs.is_none() {
            return Some(
                "signed baseline startup evaluation requires --baseline-expected-packs".to_owned(),
            );
        }
        if self.baseline_expected_packs.is_some() && (!keys || !baseline) {
            return Some(
                "--baseline-expected-packs requires signed baseline evaluation".to_owned(),
            );
        }
        if self.data_directory.is_none() {
            return Some(STARTUP_USAGE.to_owned());
        }
        None
    }

    /// The options, if they break no rule.
    pub fn finish(self) -> (result: Result<StartupOptions, String>)
        ensures
            match startup_conflict(self@) {
                Some(error) => result is Err && result->Err_0@ == error,
                None => result is Ok && result->Ok_0.built() == startup_completed(self@),
            },
    {
        match self.first_conflict() {
            Some(error) => return Err(error),
            None => {},
        }
        let iterations: usize = match self.iterations {
            Some(count) => count,
            None => 5,
        };
        let data_directory: String = match self.data_directory {
            Some(directory) => directory,
            None => return Err(STARTUP_USAGE.to_owned()),
        };
        Ok(
            StartupOptions {
                data_directory,
                baseline_data_directory: self.baseline_data_directory,
                iterations,
                max_median_ms: self.max_median_ms,
                max_p95_ms: self.max_p95_ms,
                max_rss_bytes: self.max_rss_bytes,
                max_median_delta_ms: self.max_median_delta_ms,
                max_p95_delta_ms: self.max_p95_delta_ms,
                max_rss_delta_bytes: self.max_rss_delta_bytes,
                verification_keys: self.verification_keys,
                version_floors: self.version_floors,
                expected_packs: self.expected_packs,
                baseline_expected_packs: self.baseline_expected_packs,
                json: self.json,
            },
        )
    }
}

} // verus!
