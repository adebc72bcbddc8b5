//! The options of a startup probe.

use vstd::prelude::*;
use vstd::string::*;

use crate::arguments::{
    count_of, count_value, given_from, given_options, message, names, Given, NumberBits, Stop,
};
use crate::evaluation_options::{agrees, optional_text};
use crate::text::{same_text, texts};
verus! {

/// The options that take a value.
pub const PROBE_VALUED: [&'static str; 4] = [
    "--data-dir",
    "--verification-keys",
    "--version-floors",
    "--expected-packs",
];

/// The options that take no value.
pub const PROBE_FLAGS: [&'static str; 0] = [];

/// The options while they are read.
#[derive(Debug, PartialEq, Eq)]
pub struct ProbeOptionsBuilder {
    pub data_directory: Option<String>,
    pub verification_keys: Option<String>,
    pub version_floors: Option<String>,
    pub expected_packs: Option<usize>,
}

/// The mathematical value of the options while they are read.
pub ghost struct ProbeOptionsBuilderView {
    pub data_directory: Option<Seq<char>>,
    pub verification_keys: Option<Seq<char>>,
    pub version_floors: Option<Seq<char>>,
    pub expected_packs: Option<usize>,
}

impl View for ProbeOptionsBuilder {
    type V = ProbeOptionsBuilderView;

    open spec fn view(&self) -> ProbeOptionsBuilderView {
        ProbeOptionsBuilderView {
            data_directory: optional_text(self.data_directory),
            verification_keys: optional_text(self.verification_keys),
            version_floors: optional_text(self.version_floors),
            expected_packs: self.expected_packs,
        }
    }
}

/// The value of the option that takes the number of packs.
pub open spec fn probe_count(name: Seq<char>, value: Seq<char>, number: NumberBits) -> Result<
    usize,
    Seq<char>,
> {
    match count_value(value) {
        Some(count) => Ok(count),
        None => Err("startup probe expected pack count is invalid"@),
    }
}

fn parse_count(name: &str, value: &str, number: NumberBits) -> (result: Result<usize, String>)
    ensures
        agrees(result, probe_count(name@, value@, number)),
{
    match count_of(value) {
        Some(count) => Ok(count),
        None => Err("startup probe expected pack count is invalid".to_owned()),
    }
}

/// The options before any argument is read.
pub open spec fn probe_initial() -> ProbeOptionsBuilderView {
    ProbeOptionsBuilderView {
        data_directory: None,
        verification_keys: None,
        version_floors: None,
        expected_packs: None,
    }
}

/// The options after one more option with its value.
pub open spec fn probe_value(
    options: ProbeOptionsBuilderView,
    name: Seq<char>,
    value: Seq<char>,
    number: NumberBits,
) -> Result<ProbeOptionsBuilderView, Seq<char>> {
    if name == "--data-dir"@ {
        Ok(ProbeOptionsBuilderView { data_directory: Some(value), ..options })
    } else if name == "--verification-keys"@ {
        Ok(ProbeOptionsBuilderView { verification_keys: Some(value), ..options })
    } else if name == "--version-floors"@ {
        Ok(ProbeOptionsBuilderView { version_floors: Some(value), ..options })
    } else if name == "--expected-packs"@ {
        match probe_count(name, value, number) {
            Ok(found) => Ok(ProbeOptionsBuilderView { expected_packs: Some(found), ..options }),
            Err(error) => Err(error),
        }
    } else {
        Ok(options)
    }
}

/// The options after one more flag.
pub open spec fn probe_flag(options: ProbeOptionsBuilderView, name: Seq<char>) -> Result<ProbeOptionsBuilderView, Seq<char>> {
    Ok(options)
}

/// The options after one more argument.
pub open spec fn probe_argument(
    options: ProbeOptionsBuilderView,
    arguments: Seq<Seq<char>>,
    numbers: Seq<NumberBits>,
    item: Given,
) -> Result<ProbeOptionsBuilderView, Seq<char>> {
    match item.value {
        Some(value) => probe_value(
            options,
            arguments[item.at as int],
            arguments[value as int],
            numbers[value as int],
        ),
        None => probe_flag(options, arguments[item.at as int]),
    }
}

/// The options after the first `count` arguments, or the error of the first that cannot be
/// taken.
pub open spec fn probe_arguments(
    options: ProbeOptionsBuilderView,
    arguments: Seq<Seq<char>>,
    numbers: Seq<NumberBits>,
    items: Seq<Given>,
    count: int,
) -> Result<ProbeOptionsBuilderView, Seq<char>>
    decreases count,
{
    if count <= 0 {
        Ok(options)
    } else {
        match probe_arguments(options, arguments, numbers, items, count - 1) {
            Ok(before) => probe_argument(before, arguments, numbers, items[count - 1]),
            Err(error) => Err(error),
        }
    }
}

proof fn probe_error_stays(
    options: ProbeOptionsBuilderView,
    arguments: Seq<Seq<char>>,
    numbers: Seq<NumberBits>,
    items: Seq<Given>,
    low: int,
    high: int,
)
    requires
        probe_arguments(options, arguments, numbers, items, low) is Err,
        0 <= low <= high,
    ensures
        probe_arguments(options, arguments, numbers, items, high) == probe_arguments(
            options,
            arguments,
            numbers,
            items,
            low,
        ),
    decreases high - low,
{
    if low < high {
        probe_error_stays(options, arguments, numbers, items, low, high - 1);
    }
}

/// The error for an option whose value is missing.
pub open spec fn probe_missing(name: Seq<char>) -> Seq<char> {
    name + " requires a value"@
}

fn missing(name: &str) -> (result: String)
    ensures
        result@ == probe_missing(name@),
{
    message(name, " requires a value")
}

/// The first rule that the options break, if any.
pub open spec fn probe_conflict(options: ProbeOptionsBuilderView) -> Option<Seq<char>> {
    if options.data_directory is None {
        Some("startup probe requires a data directory"@)
    } else if (options.verification_keys is Some) != (options.version_floors is Some) || (
    options.verification_keys is Some) != (options.expected_packs is Some) {
        Some("startup probe signed policy is incomplete"@)
    } else {
        None
    }
}

/// What is read from the arguments from the first on.
pub open spec fn probe_read(
    start: ProbeOptionsBuilderView,
    arguments: Seq<Seq<char>>,
    numbers: Seq<NumberBits>,
) -> Result<ProbeOptionsBuilderView, Seq<char>> {
    let (items, stop) = given_from(
        arguments,
        names(PROBE_VALUED@),
        names(PROBE_FLAGS@),
        false,
        0,
    );
    match probe_arguments(start, arguments, numbers, items, items.len() as int) {
        Err(error) => Err(error),
        Ok(options) => match stop {
            Stop::End => Ok(options),
            Stop::Unknown(at) => Err("startup probe received an unknown option"@),
            Stop::Missing(at) => Err(probe_missing(arguments[at as int])),
        },
    }
}

impl ProbeOptionsBuilder {
    fn start() -> (result: Self)
        ensures
            result@ == probe_initial(),
    {
        let result: ProbeOptionsBuilder = ProbeOptionsBuilder {
            data_directory: None,
            verification_keys: None,
            version_floors: None,
            expected_packs: None,
        };
        result
    }

    fn set_value(&mut self, name: &str, value: &str, number: NumberBits) -> (result: Result<
        (),
        String,
    >)
        ensures
            match probe_value(old(self)@, name@, value@, number) {
                Ok(options) => result is Ok && final(self)@ == options,
                Err(error) => result is Err && result->Err_0@ == error,
            },
    {
        if same_text(name, "--data-dir") {
            self.data_directory = Some(value.to_owned());
        } else if same_text(name, "--verification-keys") {
            self.verification_keys = Some(value.to_owned());
        } else if same_text(name, "--version-floors") {
            self.version_floors = Some(value.to_owned());
        } else if same_text(name, "--expected-packs") {
            self.expected_packs = match parse_count(name, value, number) {
                Ok(found) => Some(found),
                Err(error) => return Err(error),
            };
        }
        Ok(())
    }

    fn set_flag(&mut self, name: &str) -> (result: Result<(), String>)
        ensures
            match probe_flag(old(self)@, name@) {
                Ok(options) => result is Ok && final(self)@ == options,
                Err(error) => result is Err && result->Err_0@ == error,
            },
    {
        Ok(())
    }

    fn set_argument(&mut self, arguments: &[String], numbers: &[NumberBits], item: Given) -> (result:
        Result<(), String>)
        requires
            numbers@.len() == arguments@.len(),
            item.at < arguments@.len(),
            item.value matches Some(value) ==> value < arguments@.len(),
        ensures
            match probe_argument(old(self)@, texts(arguments@), numbers@, item) {
                Ok(options) => result is Ok && final(self)@ == options,
                Err(error) => result is Err && result->Err_0@ == error,
            },
    {
        let name: &str = arguments[item.at].as_str();
        assert(texts(arguments@)[item.at as int] == name@);
        match item.value {
            Some(value) => {
                assert(texts(arguments@)[value as int] == arguments@[value as int]@);
                self.set_value(name, arguments[value].as_str(), numbers[value])
            },
            None => self.set_flag(name),
        }
    }

    fn read(self, arguments: &[String], numbers: &[NumberBits]) -> (result: Result<Self, String>)
        requires
            numbers@.len() == arguments@.len(),
        ensures
            match probe_read(self@, texts(arguments@), numbers@) {
                Ok(options) => result is Ok && result->Ok_0@ == options,
                Err(error) => result is Err && result->Err_0@ == error,
            },
    {
        let valued: [&'static str; 4] = PROBE_VALUED;
        let flags: [&'static str; 0] = PROBE_FLAGS;
        let (items, stop) = given_options(
            arguments,
            valued.as_slice(),
            flags.as_slice(),
            false,
            0,
        );
        let ghost all = texts(arguments@);
        let ghost start = self@;
        let mut options: ProbeOptionsBuilder = self;
        for index in 0..items.len()
            invariant
                all == texts(arguments@),
                numbers@.len() == arguments@.len(),
                forall|i: int|
                    0 <= i < items@.len() ==> (#[trigger] items@[i]).at < arguments@.len() && (
                    items@[i].value matches Some(value) ==> value < arguments@.len()),
                probe_arguments(start, all, numbers@, items@, index as int) == Ok::<
                    ProbeOptionsBuilderView,
                    Seq<char>,
                >(options@),
                start == self@,
                (items@, stop) == given_from(
                    all,
                    names(PROBE_VALUED@),
                    names(PROBE_FLAGS@),
                    false,
                    0,
                ),
        {
            match options.set_argument(arguments, numbers, items[index]) {
                Ok(()) => {},
                Err(error) => {
                    proof {
                        probe_error_stays(
                            start,
                            all,
                            numbers@,
                            items@,
                            index + 1,
                            items@.len() as int,
                        );
                    }
                    return Err(error);
                },
            }
        }
        match stop {
            Stop::End => Ok(options),
            Stop::Unknown(at) => {
                assert(all[at as int] == arguments@[at as int]@);
                Err("startup probe received an unknown option".to_owned())
            },
            Stop::Missing(at) => {
                assert(all[at as int] == arguments@[at as int]@);
                Err(missing(arguments[at].as_str()))
            },
        }
    }
}

/// The policy that packs have to be signed by, and how many there have to be.
#[derive(Debug, PartialEq, Eq)]
pub struct SignedPolicy {
    pub verification_keys: String,
    pub version_floors: String,
    pub expected_packs: usize,
}

/// What a startup probe loads.
#[derive(Debug, PartialEq, Eq)]
pub struct ProbeOptions {
    pub data_directory: String,
    pub policy: Option<SignedPolicy>,
}

impl ProbeOptions {
    /// The options as they were read.
    pub open spec fn built(self) -> ProbeOptionsBuilderView {
        ProbeOptionsBuilderView {
            data_directory: Some(self.data_directory@),
            verification_keys: match self.policy {
                Some(policy) => Some(policy.verification_keys@),
                None => None,
            },
            version_floors: match self.policy {
                Some(policy) => Some(policy.version_floors@),
                None => None,
            },
            expected_packs: match self.policy {
                Some(policy) => Some(policy.expected_packs),
                None => None,
            },
        }
    }

    /// Reads a command line. `numbers` says of each argument what it reads as a number.
    pub fn parse(arguments: &[String], numbers: &[NumberBits]) -> (result: Result<Self, String>)
        requires
            numbers@.len() == arguments@.len(),
        ensures
            match probe_read(probe_initial(), texts(arguments@), numbers@) {
                Err(error) => result is Err && result->Err_0@ == error,
                Ok(read) => match probe_conflict(read) {
                    Some(error) => result is Err && result->Err_0@ == error,
                    None => result is Ok && result->Ok_0.built() == read,
                },
            },
    {
        let read: ProbeOptionsBuilder = match ProbeOptionsBuilder::start().read(
            arguments,
            numbers,
        ) {
            Ok(read) => read,
            Err(error) => return Err(error),
        };
        let data_directory: String = match read.data_directory {
            Some(directory) => directory,
            None => return Err("startup probe requires a data directory".to_owned()),
        };
        match (read.verification_keys, read.version_floors, read.expected_packs) {
            (Some(verification_keys), Some(version_floors), Some(expected_packs)) => Ok(
                ProbeOptions {
                    data_directory,
                    policy: Some(
                        SignedPolicy { verification_keys, version_floors, expected_packs },
                    ),
                },
            ),
            (None, None, None) => Ok(ProbeOptions { data_directory, policy: None }),
            _ => Err("startup probe signed policy is incomplete".to_owned()),
        }
    }
}

} // verus!
