//! The options of an evaluation of context packs.

use vstd::prelude::*;
use vstd::string::*;

use crate::arguments::{
    count_of, count_value, finite, finite_non_negative, given_from, given_options, is_finite,
    is_finite_non_negative, message, names, Given, NumberBits, Stop,
};
use crate::evaluation_options::{agrees, optional_text, push_text};
use crate::text::{
    count_text, decimal, joined, read_unsigned, same_text, texts, unsigned_value,
};
verus! {

/// How many candidates may be looked at.
pub const MAX_TOP_K: usize = 1_000;

/// How to call the evaluation of context packs.
pub const CONTEXT_USAGE: &'static str =
    "usage: slime-context-pack-evaluate --data-dir PATH [--baseline-data-dir PATH] --input PATH \
     [--input PATH ...] [--top-k N] [--min-context-rules N] \
     [--min-added-context-rules N] \
     [--min-top1-improved N] [--max-top1-regressed N] \
     [--max-topk-regressed N] [--max-top1-changed N] \
     [--min-accuracy-delta N] [--min-mrr-delta N] \
     [--max-p95-ms N] [--max-pack-load-ms N] [--max-pack-bytes N] [--json]\n\
     input format: previous_surface<TAB>reading<TAB>expected_surface";

/// The options that take a value.
pub const CONTEXT_VALUED: [&'static str; 15] = [
    "--data-dir",
    "--baseline-data-dir",
    "--input",
    "--top-k",
    "--min-context-rules",
    "--min-added-context-rules",
    "--min-top1-improved",
    "--max-top1-regressed",
    "--max-topk-regressed",
    "--max-top1-changed",
    "--min-accuracy-delta",
    "--min-mrr-delta",
    "--max-p95-ms",
    "--max-pack-load-ms",
    "--max-pack-bytes",
];

/// The options that take no value.
pub const CONTEXT_FLAGS: [&'static str; 3] = ["--json", "--help", "-h"];

/// The options while they are read.
#[derive(Debug, PartialEq, Eq)]
pub struct ContextOptionBuilder {
    pub data_directory: Option<String>,
    pub baseline_data_directory: Option<String>,
    pub input_paths: Vec<String>,
    pub top_k: Option<usize>,
    pub min_context_rules: Option<usize>,
    pub min_added_context_rules: Option<usize>,
    pub min_top1_improved: Option<usize>,
    pub max_top1_regressed: Option<usize>,
    pub max_topk_regressed: Option<usize>,
    pub max_top1_changed: Option<usize>,
    pub min_accuracy_delta: Option<u64>,
    pub min_mrr_delta: Option<u64>,
    pub max_p95_ms: Option<u64>,
    pub max_pack_load_ms: Option<u64>,
    pub max_pack_bytes: Option<u64>,
    pub json: bool,
}

/// The mathematical value of the options while they are read.
pub ghost struct ContextOptionBuilderView {
    pub data_directory: Option<Seq<char>>,
    pub baseline_data_directory: Option<Seq<char>>,
    pub input_paths: Seq<Seq<char>>,
    pub top_k: Option<usize>,
    pub min_context_rules: Option<usize>,
    pub min_added_context_rules: Option<usize>,
    pub min_top1_improved: Option<usize>,
    pub max_top1_regressed: Option<usize>,
    pub max_topk_regressed: Option<usize>,
    pub max_top1_changed: Option<usize>,
    pub min_accuracy_delta: Option<u64>,
    pub min_mrr_delta: Option<u64>,
    pub max_p95_ms: Option<u64>,
    pub max_pack_load_ms: Option<u64>,
    pub max_pack_bytes: Option<u64>,
    pub json: bool,
}

impl View for ContextOptionBuilder {
    type V = ContextOptionBuilderView;

    open spec fn view(&self) -> ContextOptionBuilderView {
        ContextOptionBuilderView {
            data_directory: optional_text(self.data_directory),
            baseline_data_directory: optional_text(self.baseline_data_directory),
            input_paths: texts(self.input_paths@),
            top_k: self.top_k,
            min_context_rules: self.min_context_rules,
            min_added_context_rules: self.min_added_context_rules,
            min_top1_improved: self.min_top1_improved,
            max_top1_regressed: self.max_top1_regressed,
            max_topk_regressed: self.max_topk_regressed,
            max_top1_changed: self.max_top1_changed,
            min_accuracy_delta: self.min_accuracy_delta,
            min_mrr_delta: self.min_mrr_delta,
            max_p95_ms: self.max_p95_ms,
            max_pack_load_ms: self.max_pack_load_ms,
            max_pack_bytes: self.max_pack_bytes,
            json: self.json,
        }
    }
}

/// The value of an option that takes a count.
pub open spec fn context_count(name: Seq<char>, value: Seq<char>, number: NumberBits) -> Result<
    usize,
    Seq<char>,
> {
    match count_value(value) {
        Some(count) => Ok(count),
        None => Err(name + " requires a non-negative integer"@),
    }
}

fn parse_usize(name: &str, value: &str, number: NumberBits) -> (result: Result<usize, String>)
    ensures
        agrees(result, context_count(name@, value@, number)),
{
    match count_of(value) {
        Some(count) => Ok(count),
        None => Err(message(name, " requires a non-negative integer")),
    }
}

/// The value of an option that takes a count other than zero.
pub open spec fn context_positive(name: Seq<char>, value: Seq<char>, number: NumberBits) -> Result<
    usize,
    Seq<char>,
> {
    match context_count(name, value, number) {
        Ok(count) => if count == 0 {
            Err(name + " must be greater than zero"@)
        } else {
            Ok(count)
        },
        Err(error) => Err(error),
    }
}

fn parse_positive_usize(name: &str, value: &str, number: NumberBits) -> (result: Result<
    usize,
    String,
>)
    ensures
        agrees(result, context_positive(name@, value@, number)),
{
    match parse_usize(name, value, number) {
        Ok(count) => if count == 0 {
            Err(message(name, " must be greater than zero"))
        } else {
            Ok(count)
        },
        Err(error) => Err(error),
    }
}

/// The value of an option that takes a number of bytes.
pub open spec fn context_bytes(name: Seq<char>, value: Seq<char>, number: NumberBits) -> Result<
    u64,
    Seq<char>,
> {
    match unsigned_value(value) {
        Some(found) => if found <= u64::MAX {
            Ok(found as u64)
        } else {
            Err(name + " requires a non-negative integer"@)
        },
        None => Err(name + " requires a non-negative integer"@),
    }
}

fn parse_u64(name: &str, value: &str, number: NumberBits) -> (result: Result<u64, String>)
    ensures
        agrees(result, context_bytes(name@, value@, number)),
{
    match read_unsigned(value, u64::MAX) {
        Some(found) => Ok(found),
        None => Err(message(name, " requires a non-negative integer")),
    }
}

/// The value of an option that takes a number.
pub open spec fn context_number(name: Seq<char>, value: Seq<char>, number: NumberBits) -> Result<
    u64,
    Seq<char>,
> {
    match number.double {
        Some(bits) => if is_finite(bits) {
            Ok(bits)
        } else {
            Err(name + " requires a finite number"@)
        },
        None => Err(name + " requires a number"@),
    }
}

fn parse_f64(name: &str, value: &str, number: NumberBits) -> (result: Result<u64, String>)
    ensures
        agrees(result, context_number(name@, value@, number)),
{
    match number.double {
        Some(bits) => if finite(bits) {
            Ok(bits)
        } else {
            Err(message(name, " requires a finite number"))
        },
        None => Err(message(name, " requires a number")),
    }
}

/// The value of an option that takes milliseconds.
pub open spec fn context_milliseconds(
    name: Seq<char>,
    value: Seq<char>,
    number: NumberBits,
) -> Result<u64, Seq<char>> {
    match context_number(name, value, number) {
        Ok(bits) => if is_finite_non_negative(bits) {
            Ok(bits)
        } else {
            Err(name + " requires a non-negative number"@)
        },
        Err(error) => Err(error),
    }
}

fn parse_non_negative(name: &str, value: &str, number: NumberBits) -> (result: Result<u64, String>)
    ensures
        agrees(result, context_milliseconds(name@, value@, number)),
{
    match parse_f64(name, value, number) {
        Ok(bits) => if finite_non_negative(bits) {
            Ok(bits)
        } else {
            Err(message(name, " requires a non-negative number"))
        },
        Err(error) => Err(error),
    }
}

/// The options before any argument is read.
pub open spec fn context_initial() -> ContextOptionBuilderView {
    ContextOptionBuilderView {
        data_directory: None,
        baseline_data_directory: None,
        input_paths: Seq::empty(),
        top_k: None,
        min_context_rules: None,
        min_added_context_rules: None,
        min_top1_improved: None,
        max_top1_regressed: None,
        max_topk_regressed: None,
        max_top1_changed: None,
        min_accuracy_delta: None,
        min_mrr_delta: None,
        max_p95_ms: None,
        max_pack_load_ms: None,
        max_pack_bytes: None,
        json: false,
    }
}

/// The options after one more option with its value.
pub open spec fn context_value(
    options: ContextOptionBuilderView,
    name: Seq<char>,
    value: Seq<char>,
    number: NumberBits,
) -> Result<ContextOptionBuilderView, Seq<char>> {
    if name == "--data-dir"@ {
        Ok(ContextOptionBuilderView { data_directory: Some(value), ..options })
    } else if name == "--baseline-data-dir"@ {
        Ok(ContextOptionBuilderView { baseline_data_directory: Some(value), ..options })
    } else if name == "--input"@ {
        Ok(ContextOptionBuilderView { input_paths: options.input_paths.push(value), ..options })
    } else if name == "--top-k"@ {
        match context_positive(name, value, number) {
            Ok(found) => Ok(ContextOptionBuilderView { top_k: Some(found), ..options }),
            Err(error) => Err(error),
        }
    } else if name == "--min-context-rules"@ {
        match context_count(name, value, number) {
            Ok(found) => Ok(ContextOptionBuilderView { min_context_rules: Some(found), ..options }),
            Err(error) => Err(error),
        }
    } else if name == "--min-added-context-rules"@ {
        match context_count(name, value, number) {
            Ok(found) => Ok(ContextOptionBuilderView { min_added_context_rules: Some(found), ..options }),
            Err(error) => Err(error),
        }
    } else if name == "--min-top1-improved"@ {
        match context_count(name, value, number) {
            Ok(found) => Ok(ContextOptionBuilderView { min_top1_improved: Some(found), ..options }),
            Err(error) => Err(error),
        }
    } else if name == "--max-top1-regressed"@ {
        match context_count(name, value, number) {
            Ok(found) => Ok(ContextOptionBuilderView { max_top1_regressed: Some(found), ..options }),
            Err(error) => Err(error),
        }
    } else if name == "--max-topk-regressed"@ {
        match context_count(name, value, number) {
            Ok(found) => Ok(ContextOptionBuilderView { max_topk_regressed: Some(found), ..options }),
            Err(error) => Err(error),
        }
    } else if name == "--max-top1-changed"@ {
        match context_count(name, value, number) {
            Ok(found) => Ok(ContextOptionBuilderView { max_top1_changed: Some(found), ..options }),
            Err(error) => Err(error),
        }
    } else if name == "--min-accuracy-delta"@ {
        match context_number(name, value, number) {
            Ok(found) => Ok(ContextOptionBuilderView { min_accuracy_delta: Some(found), ..options }),
            Err(error) => Err(error),
        }
    } else if name == "--min-mrr-delta"@ {
        match context_number(name, value, number) {
            Ok(found) => Ok(ContextOptionBuilderView { min_mrr_delta: Some(found), ..options }),
            Err(error) => Err(error),
        }
    } else if name == "--max-p95-ms"@ {
        match context_milliseconds(name, value, number) {
            Ok(found) => Ok(ContextOptionBuilderView { max_p95_ms: Some(found), ..options }),
            Err(error) => Err(error),
        }
    } else if name == "--max-pack-load-ms"@ {
        match context_milliseconds(name, value, number) {
            Ok(found) => Ok(ContextOptionBuilderView { max_pack_load_ms: Some(found), ..options }),
            Err(error) => Err(error),
        }
    } else if name == "--max-pack-bytes"@ {
        match context_bytes(name, value, number) {
            Ok(found) => Ok(ContextOptionBuilderView { max_pack_bytes: Some(found), ..options }),
            Err(error) => Err(error),
        }
    } else {
        Ok(options)
    }
}

/// The options after one more flag.
pub open spec fn context_flag(options: ContextOptionBuilderView, name: Seq<char>) -> Result<ContextOptionBuilderView, Seq<char>> {
    if name == "--json"@ {
        Ok(ContextOptionBuilderView { json: true, ..options })
    } else if name == "--help"@ {
        Err(CONTEXT_USAGE@)
    } else if name == "-h"@ {
        Err(CONTEXT_USAGE@)
    } else {
        Ok(options)
    }
}

/// The options after one more argument.
pub open spec fn context_argument(
    options: ContextOptionBuilderView,
    arguments: Seq<Seq<char>>,
    numbers: Seq<NumberBits>,
    item: Given,
) -> Result<ContextOptionBuilderView, Seq<char>> {
    match item.value {
        Some(value) => context_value(
            options,
            arguments[item.at as int],
            arguments[value as int],
            numbers[value as int],
        ),
        None => context_flag(options, arguments[item.at as int]),
    }
}

/// The options after the first `count` arguments, or the error of the first that cannot be
/// taken.
pub open spec fn context_arguments(
    options: ContextOptionBuilderView,
    arguments: Seq<Seq<char>>,
    numbers: Seq<NumberBits>,
    items: Seq<Given>,
    count: int,
) -> Result<ContextOptionBuilderView, Seq<char>>
    decreases count,
{
    if count <= 0 {
        Ok(options)
    } else {
        match context_arguments(options, arguments, numbers, items, count - 1) {
            Ok(before) => context_argument(before, arguments, numbers, items[count - 1]),
            Err(error) => Err(error),
        }
    }
}

proof fn context_error_stays(
    options: ContextOptionBuilderView,
    arguments: Seq<Seq<char>>,
    numbers: Seq<NumberBits>,
    items: Seq<Given>,
    low: int,
    high: int,
)
    requires
        context_arguments(options, arguments, numbers, items, low) is Err,
        0 <= low <= high,
    ensures
        context_arguments(options, arguments, numbers, items, high) == context_arguments(
            options,
            arguments,
            numbers,
            items,
            low,
        ),
    decreases high - low,
{
    if low < high {
        context_error_stays(options, arguments, numbers, items, low, high - 1);
    }
}

/// The error for an option whose value is missing.
pub open spec fn context_missing(name: Seq<char>) -> Seq<char> {
    name + " requires a value"@
}

fn missing(name: &str) -> (result: String)
    ensures
        result@ == context_missing(name@),
{
    message(name, " requires a value")
}

/// The options once everything was read, or what is missing.
pub open spec fn context_finished(options: ContextOptionBuilderView) -> Result<
    ContextOptionBuilderView,
    Seq<char>,
> {
    let top_k = match options.top_k {
        Some(count) => count,
        None => 10,
    };
    if options.data_directory is None || options.input_paths.len() == 0 {
        Err(CONTEXT_USAGE@)
    } else if top_k > MAX_TOP_K {
        Err("--top-k cannot exceed "@ + decimal(MAX_TOP_K as nat))
    } else {
        Ok(ContextOptionBuilderView { top_k: Some(top_k), ..options })
    }
}

/// What is read from the arguments from the first on.
pub open spec fn context_read(
    start: ContextOptionBuilderView,
    arguments: Seq<Seq<char>>,
    numbers: Seq<NumberBits>,
) -> Result<ContextOptionBuilderView, Seq<char>> {
    let (items, stop) = given_from(
        arguments,
        names(CONTEXT_VALUED@),
        names(CONTEXT_FLAGS@),
        false,
        0,
    );
    match context_arguments(start, arguments, numbers, items, items.len() as int) {
        Err(error) => Err(error),
        Ok(options) => match stop {
            Stop::End => Ok(options),
            Stop::Unknown(at) => Err("unknown argument\n"@ + CONTEXT_USAGE@),
            Stop::Missing(at) => Err(context_missing(arguments[at as int])),
        },
    }
}

impl ContextOptionBuilder {
    fn start() -> (result: Self)
        ensures
            result@ == context_initial(),
    {
        let result: ContextOptionBuilder = ContextOptionBuilder {
            data_directory: None,
            baseline_data_directory: None,
            input_paths: Vec::new(),
            top_k: None,
            min_context_rules: None,
            min_added_context_rules: None,
            min_top1_improved: None,
            max_top1_regressed: None,
            max_topk_regressed: None,
            max_top1_changed: None,
            min_accuracy_delta: None,
            min_mrr_delta: None,
            max_p95_ms: None,
            max_pack_load_ms: None,
            max_pack_bytes: None,
            json: false,
        };
        assert(texts(result.input_paths@) =~= Seq::<Seq<char>>::empty());
        result
    }

    fn set_value(&mut self, name: &str, value: &str, number: NumberBits) -> (result: Result<
        (),
        String,
    >)
        ensures
            match context_value(old(self)@, name@, value@, number) {
                Ok(options) => result is Ok && final(self)@ == options,
                Err(error) => result is Err && result->Err_0@ == error,
            },
    {
        if same_text(name, "--data-dir") {
            self.data_directory = Some(value.to_owned());
        } else if same_text(name, "--baseline-data-dir") {
            self.baseline_data_directory = Some(value.to_owned());
        } else if same_text(name, "--input") {
            push_text(&mut self.input_paths, value);
        } else if same_text(name, "--top-k") {
            self.top_k = match parse_positive_usize(name, value, number) {
                Ok(found) => Some(found),
                Err(error) => return Err(error),
            };
        } else if same_text(name, "--min-context-rules") {
            self.min_context_rules = match parse_usize(name, value, number) {
                Ok(found) => Some(found),
                Err(error) => return Err(error),
            };
        } else if same_text(name, "--min-added-context-rules") {
            self.min_added_context_rules = match parse_usize(name, value, number) {
                Ok(found) => Some(found),
                Err(error) => return Err(error),
            };
        } else if same_text(name, "--min-top1-improved") {
            self.min_top1_improved = match parse_usize(name, value, number) {
                Ok(found) => Some(found),
                Err(error) => return Err(error),
            };
        } else if same_text(name, "--max-top1-regressed") {
            self.max_top1_regressed = match parse_usize(name, value, number) {
                Ok(found) => Some(found),
                Err(error) => return Err(error),
            };
        } else if same_text(name, "--max-topk-regressed") {
            self.max_topk_regressed = match parse_usize(name, value, number) {
                Ok(found) => Some(found),
                Err(error) => return Err(error),
            };
        } else if same_text(name, "--max-top1-changed") {
            self.max_top1_changed = match parse_usize(name, value, number) {
                Ok(found) => Some(found),
                Err(error) => return Err(error),
            };
        } else if same_text(name, "--min-accuracy-delta") {
            self.min_accuracy_delta = match parse_f64(name, value, number) {
                Ok(found) => Some(found),
                Err(error) => return Err(error),
            };
        } else if same_text(name, "--min-mrr-delta") {
            self.min_mrr_delta = match parse_f64(name, value, number) {
                Ok(found) => Some(found),
                Err(error) => return Err(error),
            };
        } else if same_text(name, "--max-p95-ms") {
            self.max_p95_ms = match parse_non_negative(name, value, number) {
                Ok(found) => Some(found),
                Err(error) => return Err(error),
            };
        } else if same_text(name, "--max-pack-load-ms") {
            self.max_pack_load_ms = match parse_non_negative(name, value, number) {
                Ok(found) => Some(found),
                Err(error) => return Err(error),
            };
        } else if same_text(name, "--max-pack-bytes") {
            self.max_pack_bytes = match parse_u64(name, value, number) {
                Ok(found) => Some(found),
                Err(error) => return Err(error),
            };
        }
        Ok(())
    }

    fn set_flag(&mut self, name: &str) -> (result: Result<(), String>)
        ensures
            match context_flag(old(self)@, name@) {
                Ok(options) => result is Ok && final(self)@ == options,
                Err(error) => result is Err && result->Err_0@ == error,
            },
    {
        if same_text(name, "--json") {
            self.json = true;
        } else if same_text(name, "--help") {
            return Err(CONTEXT_USAGE.to_owned());
        } else if same_text(name, "-h") {
            return Err(CONTEXT_USAGE.to_owned());
        }
        Ok(())
    }

    fn set_argument(&mut self, arguments: &[String], numbers: &[NumberBits], item: Given) -> (result:
        Result<(), String>)
        requires
            numbers@.len() == arguments@.len(),
            item.at < arguments@.len(),
            item.value matches Some(value) ==> value < arguments@.len(),
        ensures
            match context_argument(old(self)@, texts(arguments@), numbers@, item) {
                Ok(options) => result is Ok && final(self)@ == options,
                Err(error) => result is Err && result->Err_0@ == error,
            },
    {
        let name: &str = arguments[item.at].as_str();
        assert(texts(arguments@)[item.at as int] == name@);
        match item.value {
            Some(value) => {
                assert(texts(arguments@)[value as int] == arguments@[value as int]@);
                self.set_value(name, arguments[value].as_str(), numbers[value])
            },
            None => self.set_flag(name),
        }
    }

    fn read(self, arguments: &[String], numbers: &[NumberBits]) -> (result: Result<Self, String>)
        requires
            numbers@.len() == arguments@.len(),
        ensures
            match context_read(self@, texts(arguments@), numbers@) {
                Ok(options) => result is Ok && result->Ok_0@ == options,
                Err(error) => result is Err && result->Err_0@ == error,
            },
    {
        let valued: [&'static str; 15] = CONTEXT_VALUED;
        let flags: [&'static str; 3] = CONTEXT_FLAGS;
        let (items, stop) = given_options(
            arguments,
            valued.as_slice(),
            flags.as_slice(),
            false,
            0,
        );
        let ghost all = texts(arguments@);
        let ghost start = self@;
        let mut options: ContextOptionBuilder = self;
        for index in 0..items.len()
            invariant
                all == texts(arguments@),
                numbers@.len() == arguments@.len(),
                forall|i: int|
                    0 <= i < items@.len() ==> (#[trigger] items@[i]).at < arguments@.len() && (
                    items@[i].value matches Some(value) ==> value < arguments@.len()),
                context_arguments(start, all, numbers@, items@, index as int) == Ok::<
                    ContextOptionBuilderView,
                    Seq<char>,
                >(options@),
                start == self@,
                (items@, stop) == given_from(
                    all,
                    names(CONTEXT_VALUED@),
                    names(CONTEXT_FLAGS@),
                    false,
                    0,
                ),
        {
            match options.set_argument(arguments, numbers, items[index]) {
                Ok(()) => {},
                Err(error) => {
                    proof {
                        context_error_stays(
                            start,
                            all,
                            numbers@,
                            items@,
                            index + 1,
                            items@.len() as int,
                        );
                    }
                    return Err(error);
                },
            }
        }
        match stop {
            Stop::End => Ok(options),
            Stop::Unknown(at) => {
                assert(all[at as int] == arguments@[at as int]@);
                Err(joined("unknown argument\n", CONTEXT_USAGE))
            },
            Stop::Missing(at) => {
                assert(all[at as int] == arguments@[at as int]@);
                Err(missing(arguments[at].as_str()))
            },
        }
    }
}

/// The options of an evaluation of context packs.
#[derive(Debug, PartialEq, Eq)]
pub struct ContextPackOptions {
    pub data_directory: String,
    pub baseline_data_directory: Option<String>,
    pub input_paths: Vec<String>,
    pub top_k: usize,
    pub min_context_rules: Option<usize>,
    pub min_added_context_rules: Option<usize>,
    pub min_top1_improved: Option<usize>,
    pub max_top1_regressed: Option<usize>,
    pub max_topk_regressed: Option<usize>,
    pub max_top1_changed: Option<usize>,
    /// The bits of a double, as the next three.
    pub min_accuracy_delta: Option<u64>,
    pub min_mrr_delta: Option<u64>,
    pub max_p95_ms: Option<u64>,
    pub max_pack_load_ms: Option<u64>,
    pub max_pack_bytes: Option<u64>,
    pub json: bool,
}

impl ContextPackOptions {
    /// The options as they were read, with the number of candidates filled in.
    pub open spec fn built(self) -> ContextOptionBuilderView {
        ContextOptionBuilderView {
            data_directory: Some(self.data_directory@),
            baseline_data_directory: optional_text(self.baseline_data_directory),
            input_paths: texts(self.input_paths@),
            top_k: Some(self.top_k),
            min_context_rules: self.min_context_rules,
            min_added_context_rules: self.min_added_context_rules,
            min_top1_improved: self.min_top1_improved,
            max_top1_regressed: self.max_top1_regressed,
            max_topk_regressed: self.max_topk_regressed,
            max_top1_changed: self.max_top1_changed,
            min_accuracy_delta: self.min_accuracy_delta,
            min_mrr_delta: self.min_mrr_delta,
            max_p95_ms: self.max_p95_ms,
            max_pack_load_ms: self.max_pack_load_ms,
            max_pack_bytes: self.max_pack_bytes,
            json: self.json,
        }
    }

    /// Reads a command line. `numbers` says of each argument what it reads as a number.
    pub fn parse(arguments: &[String], numbers: &[NumberBits]) -> (result: Result<Self, String>)
        requires
            numbers@.len() == arguments@.len(),
        ensures
            match context_read(context_initial(), texts(arguments@), numbers@) {
                Err(error) => result is Err && result->Err_0@ == error,
                Ok(read) => match context_finished(read) {
                    Err(error) => result is Err && result->Err_0@ == error,
                    Ok(options) => result is Ok && result->Ok_0.built() == options,
                },
            },
    {
        match ContextOptionBuilder::start().read(arguments, numbers) {
            Ok(read) => read.finish(),
            Err(error) => Err(error),
        }
    }
}

impl ContextOptionBuilder {
    /// The options, if everything that is needed was given.
    pub fn finish(self) -> (result: Result<ContextPackOptions, String>)
        ensures
            match context_finished(self@) {
                Err(error) => result is Err && result->Err_0@ == error,
                Ok(options) => result is Ok && result->Ok_0.built() == options,
            },
    {
        let data_directory: String = match self.data_directory {
            Some(directory) => directory,
            None => return Err(CONTEXT_USAGE.to_owned()),
        };
        if self.input_paths.len() == 0 {
            return Err(CONTEXT_USAGE.to_owned());
        }
        let top_k: usize = match self.top_k {
            Some(count) => count,
            None => 10,
        };
        if top_k > MAX_TOP_K {
            let limit: String = count_text(MAX_TOP_K);
            return Err(joined("--top-k cannot exceed ", limit.as_str()));
        }
        Ok(
            ContextPackOptions {
                data_directory,
                baseline_data_directory: self.baseline_data_directory,
                input_paths: self.input_paths,
                top_k,
                min_context_rules: self.min_context_rules,
                min_added_context_rules: self.min_added_context_rules,
                min_top1_improved: self.min_top1_improved,
                max_top1_regressed: self.max_top1_regressed,
                max_topk_regressed: self.max_topk_regressed,
                max_top1_changed: self.max_top1_changed,
                min_accuracy_delta: self.min_accuracy_delta,
                min_mrr_delta: self.min_mrr_delta,
                max_p95_ms: self.max_p95_ms,
                max_pack_load_ms: self.max_pack_load_ms,
                max_pack_bytes: self.max_pack_bytes,
                json: self.json,
            },
        )
    }
}

} // verus!
