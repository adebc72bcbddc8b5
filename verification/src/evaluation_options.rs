//! The options of an evaluation.

use vstd::prelude::*;
use vstd::string::*;

use crate::arguments::{
    between_zero_and_one, count_of, count_value, finite_non_negative, finite_non_negative_single,
    given_from, given_options, is_between_zero_and_one, is_finite_non_negative,
    is_finite_non_negative_single, message, names, Given, NumberBits, Stop,
};
use crate::primitives::{debug_text, text_debug};
use crate::text::{joined, read_i32, same_text, signed_value, texts};

verus! {

/// How to call the evaluation.
pub const USAGE: &'static str =
    "usage: slime-evaluate <ajimee|anthy|annotated> --input <path> [--input <path> ...] \
     [--dataset-name NAME] [--dataset-revision REV] [--dataset-sha256 HEX] [--top-k N] \
     [--search-k N] \
     [--context all|none|present] [--limit N] [--failures N] [--json] \
     [--neural-model model.gguf] [--neural-max-cost-gap N] \
     [--neural-max-candidates N] [--neural-max-candidate-cost-gap N] \
     [--neural-long-input-min-characters N] \
     [--neural-long-input-max-candidates N] \
     [--neural-long-input-max-candidate-cost-gap N] \
     [--lambda X]... [--neural-min-margin X]... \
     [--neural-score-mode with-eos|without-eos|mean-with-eos|mean-without-eos]... \
     [--export-nbest path] \
     [--discriminative-train items.json] [--discriminative-train-limit N] \
     [--discriminative-teacher-model model.gguf] [--discriminative-teacher-lambda X] \
     [--discriminative-export-training path] [--discriminative-export-evaluation path] \
     [--discriminative-dimensions N] [--discriminative-epochs N] \
     [--discriminative-weight X]... \
     [--word-bigram-corpus corpus.txt] [--word-bigram-weight N] \
     [--skip-bigram-weight N] [--context-bigram-weight N] \
     [--corpus-bigram-min-count N]\n\
     --neural-model rescores the N-best with a zenz GGUF model (requires \
     building with --features neural). --neural-max-cost-gap skips neural \
     scoring when the base top-two cost gap exceeds N. --neural-max-candidates \
     restricts neural reordering to the first N lattice candidates while \
     preserving the remaining base order. The paired long-input options replace \
     that limit once the input reaches the configured character count. \
     --neural-max-candidate-cost-gap \
     further restricts that prefix to candidates no more than N cost units \
     above the base winner. The corresponding long-input option replaces that \
     cost gap at the same character boundary. --lambda selects interpolation \
     weights; without it a default sweep runs. --neural-min-margin accepts a \
     new top candidate only when its interpolated score exceeds the base top by \
     at least X; it is repeatable and defaults to zero. --neural-score-mode \
     controls EOS inclusion and token-length normalization, is repeatable, and \
     defaults to with-eos. The discriminative \
     options train an evaluation-only hashed averaged perceptron on a disjoint \
     AJIMEE-format training file. The optional annotated corpus \
     uses whitespace-separated surface/reading tokens and only affects offline \
     N-best ranking.";

/// The options that take a value.
pub const VALUED_OPTIONS: [&'static str; 34] = [
    "--input",
    "--dataset-name",
    "--dataset-revision",
    "--dataset-sha256",
    "--top-k",
    "--search-k",
    "--context",
    "--limit",
    "--failures",
    "--neural-model",
    "--neural-max-cost-gap",
    "--neural-max-candidates",
    "--neural-long-input-min-characters",
    "--neural-long-input-max-candidates",
    "--neural-max-candidate-cost-gap",
    "--neural-long-input-max-candidate-cost-gap",
    "--lambda",
    "--neural-min-margin",
    "--neural-score-mode",
    "--discriminative-train",
    "--discriminative-teacher-model",
    "--discriminative-teacher-lambda",
    "--export-nbest",
    "--discriminative-export-training",
    "--discriminative-export-evaluation",
    "--discriminative-train-limit",
    "--discriminative-dimensions",
    "--discriminative-epochs",
    "--discriminative-weight",
    "--word-bigram-corpus",
    "--word-bigram-weight",
    "--skip-bigram-weight",
    "--context-bigram-weight",
    "--corpus-bigram-min-count",
];

/// The options that take no value.
pub const FLAG_OPTIONS: [&'static str; 3] = ["--json", "--help", "-h"];

/// The options whose value is a path.
pub const PATH_OPTIONS: [&'static str; 8] = [
    "--input",
    "--neural-model",
    "--discriminative-train",
    "--discriminative-teacher-model",
    "--export-nbest",
    "--discriminative-export-training",
    "--discriminative-export-evaluation",
    "--word-bigram-corpus",
];

/// The interpolation weights of the sweep that runs if none is given: the tenths from zero to
/// one and 0.95.
pub const DEFAULT_LAMBDAS: [u64; 12] = [
    0x0000_0000_0000_0000,
    0x3FB9_9999_9999_999A,
    0x3FC9_9999_9999_999A,
    0x3FD3_3333_3333_3333,
    0x3FD9_9999_9999_999A,
    0x3FE0_0000_0000_0000,
    0x3FE3_3333_3333_3333,
    0x3FE6_6666_6666_6666,
    0x3FE9_9999_9999_999A,
    0x3FEC_CCCC_CCCC_CCCD,
    0x3FEE_6666_6666_6666,
    0x3FF0_0000_0000_0000,
];

/// The weights that are tried if none is given: 0.01, 0.025, 0.05, 0.1, 0.25, 0.5 and 1.
pub const DEFAULT_WEIGHTS: [u32; 7] = [
    0x3C23_D70A,
    0x3CCC_CCCD,
    0x3D4C_CCCD,
    0x3DCC_CCCD,
    0x3E80_0000,
    0x3F00_0000,
    0x3F80_0000,
];

/// The teacher's interpolation weight if none is given: 0.8.
pub const DEFAULT_TEACHER_LAMBDA: u64 = 0x3FE9_9999_9999_999A;

/// Which items an evaluation takes, by their left context.
#[derive(Clone, Copy, Debug, PartialEq, Eq, Structural)]
pub enum ContextFilter {
    All,
    Absent,
    Present,
}

/// Which score of a candidate counts.
#[derive(Clone, Copy, Debug, PartialEq, Eq, Structural)]
pub enum NeuralScoreMode {
    Total,
    Candidate,
    MeanTotal,
    MeanCandidate,
}

/// The form of the items.
#[derive(Clone, Copy, Debug, PartialEq, Eq, Structural)]
pub enum DatasetFormat {
    Ajimee,
    Anthy,
    Annotated,
}

impl NeuralScoreMode {
    pub open spec fn name(self) -> Seq<char> {
        match self {
            NeuralScoreMode::Total => "with-eos"@,
            NeuralScoreMode::Candidate => "without-eos"@,
            NeuralScoreMode::MeanTotal => "mean-with-eos"@,
            NeuralScoreMode::MeanCandidate => "mean-without-eos"@,
        }
    }

    /// The mode of this name.
    pub open spec fn named(value: Seq<char>) -> Option<Self> {
        if value == "with-eos"@ {
            Some(NeuralScoreMode::Total)
        } else if value == "without-eos"@ {
            Some(NeuralScoreMode::Candidate)
        } else if value == "mean-with-eos"@ {
            Some(NeuralScoreMode::MeanTotal)
        } else if value == "mean-without-eos"@ {
            Some(NeuralScoreMode::MeanCandidate)
        } else {
            None
        }
    }

    pub fn as_str(self) -> (result: &'static str)
        ensures
            result@ == self.name(),
    {
        match self {
            NeuralScoreMode::Total => "with-eos",
            NeuralScoreMode::Candidate => "without-eos",
            NeuralScoreMode::MeanTotal => "mean-with-eos",
            NeuralScoreMode::MeanCandidate => "mean-without-eos",
        }
    }

    pub fn parse(value: &str) -> (result: Result<Self, String>)
        ensures
            match NeuralScoreMode::named(value@) {
                Some(mode) => result == Ok::<NeuralScoreMode, String>(mode),
                None => result is Err && result->Err_0@ == "unknown neural score mode "@
                    + text_debug(value@)
                    + "; expected with-eos, without-eos, mean-with-eos, or mean-without-eos"@,
            },
    {
        if same_text(value, "with-eos") {
            Ok(NeuralScoreMode::Total)
        } else if same_text(value, "without-eos") {
            Ok(NeuralScoreMode::Candidate)
        } else if same_text(value, "mean-with-eos") {
            Ok(NeuralScoreMode::MeanTotal)
        } else if same_text(value, "mean-without-eos") {
            Ok(NeuralScoreMode::MeanCandidate)
        } else {
            let shown: String = debug_text(value);
            let start: String = joined("unknown neural score mode ", shown.as_str());
            Err(
                joined(
                    start.as_str(),
                    "; expected with-eos, without-eos, mean-with-eos, or mean-without-eos",
                ),
            )
        }
    }
}

/// The name of a mode names that mode.
pub proof fn score_mode_names_read_back(mode: NeuralScoreMode)
    ensures
        NeuralScoreMode::named(mode.name()) == Some(mode),
{
    reveal_strlit("with-eos");
    reveal_strlit("without-eos");
    reveal_strlit("mean-with-eos");
    reveal_strlit("mean-without-eos");
    assert("with-eos"@.len() == 8 && "without-eos"@.len() == 11);
    assert("mean-with-eos"@.len() == 13 && "mean-without-eos"@.len() == 16);
}

impl ContextFilter {
    /// The filter of this name.
    pub open spec fn named(value: Seq<char>) -> Option<Self> {
        if value == "all"@ {
            Some(ContextFilter::All)
        } else if value == "none"@ {
            Some(ContextFilter::Absent)
        } else if value == "present"@ {
            Some(ContextFilter::Present)
        } else {
            None
        }
    }

    pub fn parse(value: &str) -> (result: Result<Self, String>)
        ensures
            match ContextFilter::named(value@) {
                Some(filter) => result == Ok::<ContextFilter, String>(filter),
                None => result is Err && result->Err_0@ == "invalid --context value "@ + text_debug(
                    value@,
                ) + "; expected all, none, or present"@,
            },
    {
        if same_text(value, "all") {
            Ok(ContextFilter::All)
        } else if same_text(value, "none") {
            Ok(ContextFilter::Absent)
        } else if same_text(value, "present") {
            Ok(ContextFilter::Present)
        } else {
            let shown: String = debug_text(value);
            let start: String = joined("invalid --context value ", shown.as_str());
            Err(joined(start.as_str(), "; expected all, none, or present"))
        }
    }

    /// Whether an item with this left context is taken.
    pub open spec fn takes(self, context: Seq<char>) -> bool {
        match self {
            ContextFilter::All => true,
            ContextFilter::Absent => context.len() == 0,
            ContextFilter::Present => context.len() > 0,
        }
    }

    /// Whether an item with this left context is taken.
    pub fn includes(self, context: &str) -> (result: bool)
        ensures
            result == self.takes(context@),
    {
        match self {
            ContextFilter::All => true,
            ContextFilter::Absent => context.is_empty(),
            ContextFilter::Present => !context.is_empty(),
        }
    }
}

impl DatasetFormat {
    /// The format of this name.
    pub open spec fn named(value: Seq<char>) -> Option<Self> {
        if value == "ajimee"@ {
            Some(DatasetFormat::Ajimee)
        } else if value == "anthy"@ {
            Some(DatasetFormat::Anthy)
        } else if value == "annotated"@ {
            Some(DatasetFormat::Annotated)
        } else {
            None
        }
    }

    pub fn parse(value: &str) -> (result: Result<Self, String>)
        ensures
            match DatasetFormat::named(value@) {
                Some(format) => result == Ok::<DatasetFormat, String>(format),
                None => result is Err && result->Err_0@ == "unsupported evaluation format "@
                    + text_debug(value@) + "\n"@ + USAGE@,
            },
    {
        if same_text(value, "ajimee") {
            Ok(DatasetFormat::Ajimee)
        } else if same_text(value, "anthy") {
            Ok(DatasetFormat::Anthy)
        } else if same_text(value, "annotated") {
            Ok(DatasetFormat::Annotated)
        } else {
            let shown: String = debug_text(value);
            let start: String = joined("unsupported evaluation format ", shown.as_str());
            let line: String = joined(start.as_str(), "\n");
            Err(joined(line.as_str(), USAGE))
        }
    }

    pub open spec fn title(self) -> Seq<char> {
        match self {
            DatasetFormat::Ajimee => "AJIMEE-Bench JWTD_v2/v1"@,
            DatasetFormat::Anthy => "Anthy conversion corpus"@,
            DatasetFormat::Annotated => "Annotated surface/reading corpus"@,
        }
    }

    /// The name of the dataset if none is given.
    pub fn dataset_name(self) -> (result: &'static str)
        ensures
            result@ == self.title(),
    {
        match self {
            DatasetFormat::Ajimee => "AJIMEE-Bench JWTD_v2/v1",
            DatasetFormat::Anthy => "Anthy conversion corpus",
            DatasetFormat::Annotated => "Annotated surface/reading corpus",
        }
    }
}

/// What the environment says of the datasets.
#[derive(Debug, PartialEq, Eq)]
pub struct DatasetEnvironment {
    pub ajimee_revision: Option<String>,
    pub ajimee_sha256: Option<String>,
    pub anthy_revision: Option<String>,
    pub anthy_sha256: Option<String>,
}

impl DatasetEnvironment {
    /// The revision that the environment names for the format.
    pub open spec fn revision(self, format: DatasetFormat) -> Option<Seq<char>> {
        match format {
            DatasetFormat::Ajimee => optional_text(self.ajimee_revision),
            DatasetFormat::Anthy => optional_text(self.anthy_revision),
            DatasetFormat::Annotated => None,
        }
    }

    /// The digest that the environment names for the format.
    pub open spec fn sha256(self, format: DatasetFormat) -> Option<Seq<char>> {
        match format {
            DatasetFormat::Ajimee => optional_text(self.ajimee_sha256),
            DatasetFormat::Anthy => optional_text(self.anthy_sha256),
            DatasetFormat::Annotated => None,
        }
    }

    fn revision_of(&self, format: DatasetFormat) -> (result: Option<String>)
        ensures
            optional_text(result) == self.revision(format),
    {
        match format {
            DatasetFormat::Ajimee => copied_text(&self.ajimee_revision),
            DatasetFormat::Anthy => copied_text(&self.anthy_revision),
            DatasetFormat::Annotated => None,
        }
    }

    fn sha256_of(&self, format: DatasetFormat) -> (result: Option<String>)
        ensures
            optional_text(result) == self.sha256(format),
    {
        match format {
            DatasetFormat::Ajimee => copied_text(&self.ajimee_sha256),
            DatasetFormat::Anthy => copied_text(&self.anthy_sha256),
            DatasetFormat::Annotated => None,
        }
    }
}

/// A copy of a text that may be missing.
pub fn copied_text(text: &Option<String>) -> (result: Option<String>)
    ensures
        optional_text(result) == optional_text(*text),
{
    match text {
        Some(found) => Some(found.clone()),
        None => None,
    }
}

/// The options of an evaluation. Paths are kept as they were written.
#[derive(Debug, PartialEq, Eq)]
pub struct Options {
    pub format: DatasetFormat,
    pub inputs: Vec<String>,
    pub dataset_name: Option<String>,
    pub dataset_revision: Option<String>,
    pub dataset_sha256: Option<String>,
    pub top_k: usize,
    pub search_k: Option<usize>,
    pub context: ContextFilter,
    pub limit: Option<usize>,
    pub failures: usize,
    pub json: bool,
    pub neural_model: Option<String>,
    pub neural_max_cost_gap: Option<i32>,
    pub neural_max_candidates: Option<usize>,
    pub neural_long_input_min_characters: Option<usize>,
    pub neural_long_input_max_candidates: Option<usize>,
    pub neural_max_candidate_cost_gap: Option<i32>,
    pub neural_long_input_max_candidate_cost_gap: Option<i32>,
    /// The interpolation weights, as the bits of doubles.
    pub lambdas: Vec<u64>,
    /// The required leads, as the bits of doubles.
    pub neural_min_margins: Vec<u64>,
    pub neural_score_modes: Vec<NeuralScoreMode>,
    pub discriminative_train: Option<String>,
    pub discriminative_teacher_model: Option<String>,
    /// The teacher's interpolation weight, as the bits of a double.
    pub discriminative_teacher_lambda: u64,
    pub export_nbest: Option<String>,
    pub discriminative_export_training: Option<String>,
    pub discriminative_export_evaluation: Option<String>,
    pub discriminative_train_limit: usize,
    pub discriminative_dimensions: usize,
    pub discriminative_epochs: usize,
    /// The weights of the discriminative scores, as the bits of singles.
    pub discriminative_weights: Vec<u32>,
    pub word_bigram_corpora: Vec<String>,
    pub word_bigram_weight: i32,
    pub skip_bigram_weight: i32,
    pub context_bigram_weight: i32,
    pub corpus_bigram_min_count: u32,
}

/// The mathematical value of the options.
pub ghost struct OptionsView {
    pub format: DatasetFormat,
    pub inputs: Seq<Seq<char>>,
    pub dataset_name: Option<Seq<char>>,
    pub dataset_revision: Option<Seq<char>>,
    pub dataset_sha256: Option<Seq<char>>,
    pub top_k: usize,
    pub search_k: Option<usize>,
    pub context: ContextFilter,
    pub limit: Option<usize>,
    pub failures: usize,
    pub json: bool,
    pub neural_model: Option<Seq<char>>,
    pub neural_max_cost_gap: Option<i32>,
    pub neural_max_candidates: Option<usize>,
    pub neural_long_input_min_characters: Option<usize>,
    pub neural_long_input_max_candidates: Option<usize>,
    pub neural_max_candidate_cost_gap: Option<i32>,
    pub neural_long_input_max_candidate_cost_gap: Option<i32>,
    pub lambdas: Seq<u64>,
    pub neural_min_margins: Seq<u64>,
    pub neural_score_modes: Seq<NeuralScoreMode>,
    pub discriminative_train: Option<Seq<char>>,
    pub discriminative_teacher_model: Option<Seq<char>>,
    pub discriminative_teacher_lambda: u64,
    pub export_nbest: Option<Seq<char>>,
    pub discriminative_export_training: Option<Seq<char>>,
    pub discriminative_export_evaluation: Option<Seq<char>>,
    pub discriminative_train_limit: usize,
    pub discriminative_dimensions: usize,
    pub discriminative_epochs: usize,
    pub discriminative_weights: Seq<u32>,
    pub word_bigram_corpora: Seq<Seq<char>>,
    pub word_bigram_weight: i32,
    pub skip_bigram_weight: i32,
    pub context_bigram_weight: i32,
    pub corpus_bigram_min_count: u32,
}

/// The characters of a text that may be missing.
pub open spec fn optional_text(text: Option<String>) -> Option<Seq<char>> {
    match text {
        Some(found) => Some(found@),
        None => None,
    }
}

impl View for Options {
    type V = OptionsView;

    open spec fn view(&self) -> OptionsView {
        OptionsView {
            format: self.format,
            inputs: texts(self.inputs@),
            dataset_name: optional_text(self.dataset_name),
            dataset_revision: optional_text(self.dataset_revision),
            dataset_sha256: optional_text(self.dataset_sha256),
            top_k: self.top_k,
            search_k: self.search_k,
            context: self.context,
            limit: self.limit,
            failures: self.failures,
            json: self.json,
            neural_model: optional_text(self.neural_model),
            neural_max_cost_gap: self.neural_max_cost_gap,
            neural_max_candidates: self.neural_max_candidates,
            neural_long_input_min_characters: self.neural_long_input_min_characters,
            neural_long_input_max_candidates: self.neural_long_input_max_candidates,
            neural_max_candidate_cost_gap: self.neural_max_candidate_cost_gap,
            neural_long_input_max_candidate_cost_gap: self.neural_long_input_max_candidate_cost_gap,
            lambdas: self.lambdas@,
            neural_min_margins: self.neural_min_margins@,
            neural_score_modes: self.neural_score_modes@,
            discriminative_train: optional_text(self.discriminative_train),
            discriminative_teacher_model: optional_text(self.discriminative_teacher_model),
            discriminative_teacher_lambda: self.discriminative_teacher_lambda,
            export_nbest: optional_text(self.export_nbest),
            discriminative_export_training: optional_text(self.discriminative_export_training),
            discriminative_export_evaluation: optional_text(self.discriminative_export_evaluation),
            discriminative_train_limit: self.discriminative_train_limit,
            discriminative_dimensions: self.discriminative_dimensions,
            discriminative_epochs: self.discriminative_epochs,
            discriminative_weights: self.discriminative_weights@,
            word_bigram_corpora: texts(self.word_bigram_corpora@),
            word_bigram_weight: self.word_bigram_weight,
            skip_bigram_weight: self.skip_bigram_weight,
            context_bigram_weight: self.context_bigram_weight,
            corpus_bigram_min_count: self.corpus_bigram_min_count,
        }
    }
}

/// The value of an option that takes a count.
pub open spec fn plain_count(name: Seq<char>, value: Seq<char>) -> Result<usize, Seq<char>> {
    match count_value(value) {
        Some(count) => Ok(count),
        None => Err(name + " requires a non-negative integer"@),
    }
}

/// The value of an option that takes a count other than zero.
pub open spec fn positive_value(name: Seq<char>, value: Seq<char>) -> Result<usize, Seq<char>> {
    match plain_count(name, value) {
        Ok(count) => if count == 0 {
            Err(name + " must be greater than zero"@)
        } else {
            Ok(count)
        },
        Err(error) => Err(error),
    }
}

/// The value of an option that takes a count from two on.
pub open spec fn at_least_two(name: Seq<char>, value: Seq<char>) -> Result<usize, Seq<char>> {
    match positive_value(name, value) {
        Ok(count) => if count < 2 {
            Err(name + " must be at least 2"@)
        } else {
            Ok(count)
        },
        Err(error) => Err(error),
    }
}

/// The value of an option that takes a count of 32 bits other than zero.
pub open spec fn small_positive(name: Seq<char>, value: Seq<char>) -> Result<u32, Seq<char>> {
    match positive_value(name, value) {
        Ok(count) => if count > u32::MAX {
            Err(name + " is too large"@)
        } else {
            Ok(count as u32)
        },
        Err(error) => Err(error),
    }
}

/// The value of an option that takes a weight or a gap.
pub open spec fn non_negative_value(name: Seq<char>, value: Seq<char>) -> Result<i32, Seq<char>> {
    match signed_value(value) {
        Some(number) => if 0 <= number <= i32::MAX {
            Ok(number as i32)
        } else {
            Err(name + " requires a non-negative integer"@)
        },
        None => Err(name + " requires a non-negative integer"@),
    }
}

/// An interpolation weight.
pub open spec fn lambda_value(number: NumberBits) -> Result<u64, Seq<char>> {
    match number.double {
        Some(bits) => if is_between_zero_and_one(bits) {
            Ok(bits)
        } else {
            Err("--lambda must be between 0 and 1"@)
        },
        None => Err("--lambda requires a number"@),
    }
}

/// A required lead.
pub open spec fn margin_value(name: Seq<char>, number: NumberBits) -> Result<u64, Seq<char>> {
    match number.double {
        Some(bits) => if is_finite_non_negative(bits) {
            Ok(bits)
        } else {
            Err(name + " requires a finite non-negative number"@)
        },
        None => Err(name + " requires a non-negative number"@),
    }
}

/// A weight of single precision.
pub open spec fn weight_value(name: Seq<char>, number: NumberBits) -> Result<u32, Seq<char>> {
    match number.single {
        Some(bits) => if is_finite_non_negative_single(bits) {
            Ok(bits)
        } else {
            Err(name + " requires a non-negative number"@)
        },
        None => Err(name + " requires a non-negative number"@),
    }
}

/// Whether an executable result is the result that is owed.
pub open spec fn agrees<T>(result: Result<T, String>, owed: Result<T, Seq<char>>) -> bool {
    match owed {
        Ok(value) => result == Ok::<T, String>(value),
        Err(error) => result is Err && result->Err_0@ == error,
    }
}

fn plain(name: &str, value: &str) -> (result: Result<usize, String>)
    ensures
        agrees(result, plain_count(name@, value@)),
{
    match count_of(value) {
        Some(count) => Ok(count),
        None => Err(message(name, " requires a non-negative integer")),
    }
}

fn positive(name: &str, value: &str) -> (result: Result<usize, String>)
    ensures
        agrees(result, positive_value(name@, value@)),
{
    match plain(name, value) {
        Ok(count) => if count == 0 {
            Err(message(name, " must be greater than zero"))
        } else {
            Ok(count)
        },
        Err(error) => Err(error),
    }
}

fn two_or_more(name: &str, value: &str) -> (result: Result<usize, String>)
    ensures
        agrees(result, at_least_two(name@, value@)),
{
    match positive(name, value) {
        Ok(count) => if count < 2 {
            Err(message(name, " must be at least 2"))
        } else {
            Ok(count)
        },
        Err(error) => Err(error),
    }
}

fn small(name: &str, value: &str) -> (result: Result<u32, String>)
    ensures
        agrees(result, small_positive(name@, value@)),
{
    match positive(name, value) {
        Ok(count) => if count as u64 > u32::MAX as u64 {
            Err(message(name, " is too large"))
        } else {
            Ok(count as u32)
        },
        Err(error) => Err(error),
    }
}

fn non_negative(name: &str, value: &str) -> (result: Result<i32, String>)
    ensures
        agrees(result, non_negative_value(name@, value@)),
{
    match read_i32(value) {
        Some(number) => if number < 0 {
            Err(message(name, " requires a non-negative integer"))
        } else {
            Ok(number)
        },
        None => Err(message(name, " requires a non-negative integer")),
    }
}

fn lambda(number: NumberBits) -> (result: Result<u64, String>)
    ensures
        agrees(result, lambda_value(number)),
{
    match number.double {
        Some(bits) => if between_zero_and_one(bits) {
            Ok(bits)
        } else {
            Err("--lambda must be between 0 and 1".to_owned())
        },
        None => Err("--lambda requires a number".to_owned()),
    }
}

fn margin(name: &str, number: NumberBits) -> (result: Result<u64, String>)
    ensures
        agrees(result, margin_value(name@, number)),
{
    match number.double {
        Some(bits) => if finite_non_negative(bits) {
            Ok(bits)
        } else {
            Err(message(name, " requires a finite non-negative number"))
        },
        None => Err(message(name, " requires a non-negative number")),
    }
}

fn weight(name: &str, number: NumberBits) -> (result: Result<u32, String>)
    ensures
        agrees(result, weight_value(name@, number)),
{
    match number.single {
        Some(bits) => if finite_non_negative_single(bits) {
            Ok(bits)
        } else {
            Err(message(name, " requires a non-negative number"))
        },
        None => Err(message(name, " requires a non-negative number")),
    }
}

/// Adds a text to a list.
pub fn push_text(values: &mut Vec<String>, value: &str)
    ensures
        texts(final(values)@) == texts(old(values)@).push(value@),
{
    let ghost before = texts(values@);
    values.push(value.to_owned());
    assert(texts(values@) =~= before.push(value@));
}

/// An environment that says nothing.
pub open spec fn no_environment() -> DatasetEnvironment {
    DatasetEnvironment {
        ajimee_revision: None,
        ajimee_sha256: None,
        anthy_revision: None,
        anthy_sha256: None,
    }
}

/// The options before any argument is read.
pub open spec fn initial(format: DatasetFormat, environment: DatasetEnvironment) -> OptionsView {
    OptionsView {
        format,
        inputs: Seq::empty(),
        dataset_name: None,
        dataset_revision: environment.revision(format),
        dataset_sha256: environment.sha256(format),
        top_k: 10,
        search_k: None,
        context: ContextFilter::All,
        limit: None,
        failures: 10,
        json: false,
        neural_model: None,
        neural_max_cost_gap: None,
        neural_max_candidates: None,
        neural_long_input_min_characters: None,
        neural_long_input_max_candidates: None,
        neural_max_candidate_cost_gap: None,
        neural_long_input_max_candidate_cost_gap: None,
        lambdas: Seq::empty(),
        neural_min_margins: Seq::empty(),
        neural_score_modes: Seq::empty(),
        discriminative_train: None,
        discriminative_teacher_model: None,
        discriminative_teacher_lambda: DEFAULT_TEACHER_LAMBDA,
        export_nbest: None,
        discriminative_export_training: None,
        discriminative_export_evaluation: None,
        discriminative_train_limit: 10_000,
        discriminative_dimensions: 262_144,
        discriminative_epochs: 3,
        discriminative_weights: Seq::empty(),
        word_bigram_corpora: Seq::empty(),
        word_bigram_weight: 0,
        skip_bigram_weight: 0,
        context_bigram_weight: 0,
        corpus_bigram_min_count: 1,
    }
}

/// The options after one more option with its value.
pub open spec fn with_value(
    options: OptionsView,
    name: Seq<char>,
    value: Seq<char>,
    number: NumberBits,
) -> Result<OptionsView, Seq<char>> {
    if name == "--input"@ {
        Ok(OptionsView { inputs: options.inputs.push(value), ..options })
    } else if name == "--dataset-name"@ {
        Ok(OptionsView { dataset_name: Some(value), ..options })
    } else if name == "--dataset-revision"@ {
        Ok(OptionsView { dataset_revision: Some(value), ..options })
    } else if name == "--dataset-sha256"@ {
        Ok(OptionsView { dataset_sha256: Some(value), ..options })
    } else if name == "--top-k"@ {
        match positive_value(name, value) {
            Ok(found) => Ok(OptionsView { top_k: found, ..options }),
            Err(error) => Err(error),
        }
    } else if name == "--search-k"@ {
        match positive_value(name, value) {
            Ok(found) => Ok(OptionsView { search_k: Some(found), ..options }),
            Err(error) => Err(error),
        }
    } else if name == "--context"@ {
        match ContextFilter::named(value) {
            Some(found) => Ok(OptionsView { context: found, ..options }),
            None => Err(
                "invalid --context value "@ + text_debug(value)
                    + "; expected all, none, or present"@,
            ),
        }
    } else if name == "--limit"@ {
        match positive_value(name, value) {
            Ok(found) => Ok(OptionsView { limit: Some(found), ..options }),
            Err(error) => Err(error),
        }
    } else if name == "--failures"@ {
        match plain_count(name, value) {
            Ok(found) => Ok(OptionsView { failures: found, ..options }),
            Err(error) => Err(error),
        }
    } else if name == "--neural-model"@ {
        Ok(OptionsView { neural_model: Some(value), ..options })
    } else if name == "--neural-max-cost-gap"@ {
        match non_negative_value(name, value) {
            Ok(found) => Ok(OptionsView { neural_max_cost_gap: Some(found), ..options }),
            Err(error) => Err(error),
        }
    } else if name == "--neural-max-candidates"@ {
        match at_least_two(name, value) {
            Ok(found) => Ok(OptionsView { neural_max_candidates: Some(found), ..options }),
            Err(error) => Err(error),
        }
    } else if name == "--neural-long-input-min-characters"@ {
        match positive_value(name, value) {
            Ok(found) => Ok(OptionsView { neural_long_input_min_characters: Some(found), ..options }),
            Err(error) => Err(error),
        }
    } else if name == "--neural-long-input-max-candidates"@ {
        match at_least_two(name, value) {
            Ok(found) => Ok(OptionsView { neural_long_input_max_candidates: Some(found), ..options }),
            Err(error) => Err(error),
        }
    } else if name == "--neural-max-candidate-cost-gap"@ {
        match non_negative_value(name, value) {
            Ok(found) => Ok(OptionsView { neural_max_candidate_cost_gap: Some(found), ..options }),
            Err(error) => Err(error),
        }
    } else if name == "--neural-long-input-max-candidate-cost-gap"@ {
        match non_negative_value(name, value) {
            Ok(found) => Ok(OptionsView { neural_long_input_max_candidate_cost_gap: Some(found), ..options }),
            Err(error) => Err(error),
        }
    } else if name == "--lambda"@ {
        match lambda_value(number) {
            Ok(found) => Ok(OptionsView { lambdas: options.lambdas.push(found), ..options }),
            Err(error) => Err(error),
        }
    } else if name == "--neural-min-margin"@ {
        match margin_value(name, number) {
            Ok(found) => Ok(OptionsView { neural_min_margins: options.neural_min_margins.push(found), ..options }),
            Err(error) => Err(error),
        }
    } else if name == "--neural-score-mode"@ {
        match NeuralScoreMode::named(value) {
            Some(found) => Ok(
                OptionsView {
                    neural_score_modes: options.neural_score_modes.push(found),
                    ..options
                },
            ),
            None => Err(
                "unknown neural score mode "@ + text_debug(value)
                    + "; expected with-eos, without-eos, mean-with-eos, or mean-without-eos"@,
            ),
        }
    } else if name == "--discriminative-train"@ {
        Ok(OptionsView { discriminative_train: Some(value), ..options })
    } else if name == "--discriminative-teacher-model"@ {
        Ok(OptionsView { discriminative_teacher_model: Some(value), ..options })
    } else if name == "--discriminative-teacher-lambda"@ {
        match lambda_value(number) {
            Ok(found) => Ok(OptionsView { discriminative_teacher_lambda: found, ..options }),
            Err(error) => Err(error),
        }
    } else if name == "--export-nbest"@ {
        Ok(OptionsView { export_nbest: Some(value), ..options })
    } else if name == "--discriminative-export-training"@ {
        Ok(OptionsView { discriminative_export_training: Some(value), ..options })
    } else if name == "--discriminative-export-evaluation"@ {
        Ok(OptionsView { discriminative_export_evaluation: Some(value), ..options })
    } else if name == "--discriminative-train-limit"@ {
        match positive_value(name, value) {
            Ok(found) => Ok(OptionsView { discriminative_train_limit: found, ..options }),
            Err(error) => Err(error),
        }
    } else if name == "--discriminative-dimensions"@ {
        match positive_value(name, value) {
            Ok(found) => Ok(OptionsView { discriminative_dimensions: found, ..options }),
            Err(error) => Err(error),
        }
    } else if name == "--discriminative-epochs"@ {
        match positive_value(name, value) {
            Ok(found) => Ok(OptionsView { discriminative_epochs: found, ..options }),
            Err(error) => Err(error),
        }
    } else if name == "--discriminative-weight"@ {
        match weight_value(name, number) {
            Ok(found) => Ok(
                OptionsView { discriminative_weights: options.discriminative_weights.push(found), ..options },
            ),
            Err(error) => Err(error),
        }
    } else if name == "--word-bigram-corpus"@ {
        Ok(OptionsView { word_bigram_corpora: options.word_bigram_corpora.push(value), ..options })
    } else if name == "--word-bigram-weight"@ {
        match non_negative_value(name, value) {
            Ok(found) => Ok(OptionsView { word_bigram_weight: found, ..options }),
            Err(error) => Err(error),
        }
    } else if name == "--skip-bigram-weight"@ {
        match non_negative_value(name, value) {
            Ok(found) => Ok(OptionsView { skip_bigram_weight: found, ..options }),
            Err(error) => Err(error),
        }
    } else if name == "--context-bigram-weight"@ {
        match non_negative_value(name, value) {
            Ok(found) => Ok(OptionsView { context_bigram_weight: found, ..options }),
            Err(error) => Err(error),
        }
    } else if name == "--corpus-bigram-min-count"@ {
        match small_positive(name, value) {
            Ok(found) => Ok(OptionsView { corpus_bigram_min_count: found, ..options }),
            Err(error) => Err(error),
        }
    } else {
        Ok(options)
    }
}

/// The options after one more argument: an option with its value, a flag, or an input path.
pub open spec fn with_argument(
    options: OptionsView,
    arguments: Seq<Seq<char>>,
    numbers: Seq<NumberBits>,
    item: Given,
) -> Result<OptionsView, Seq<char>> {
    let name = arguments[item.at as int];
    match item.value {
        Some(value) => with_value(options, name, arguments[value as int], numbers[value as int]),
        None => if name == "--json"@ {
            Ok(OptionsView { json: true, ..options })
        } else if name == "--help"@ || name == "-h"@ {
            Err(USAGE@)
        } else {
            Ok(OptionsView { inputs: options.inputs.push(name), ..options })
        },
    }
}

/// The options after the first `count` of the given arguments, or the error of the first that
/// cannot be taken.
pub open spec fn with_arguments(
    options: OptionsView,
    arguments: Seq<Seq<char>>,
    numbers: Seq<NumberBits>,
    items: Seq<Given>,
    count: int,
) -> Result<OptionsView, Seq<char>>
    decreases count,
{
    if count <= 0 {
        Ok(options)
    } else {
        match with_arguments(options, arguments, numbers, items, count - 1) {
            Ok(before) => with_argument(before, arguments, numbers, items[count - 1]),
            Err(error) => Err(error),
        }
    }
}

/// The error for an option whose value is missing.
pub open spec fn missing_value(name: Seq<char>) -> Seq<char> {
    if names(PATH_OPTIONS@).contains(name) {
        name + " requires a path"@
    } else if name == "--discriminative-teacher-lambda"@ {
        "--lambda requires a value"@
    } else {
        name + " requires a value"@
    }
}

/// Whether a number is a power of two.
pub open spec fn is_power_of_two(value: nat) -> bool
    decreases value,
{
    value == 1 || (value > 1 && value % 2 == 0 && is_power_of_two(value / 2))
}

impl OptionsView {
    pub open spec fn uses_ranker(self) -> bool {
        self.word_bigram_weight > 0 || self.skip_bigram_weight > 0 || self.context_bigram_weight > 0
    }

    /// Whether every count, gap and weight of costs is one that its option takes: counts that
    /// must be positive are, and gaps and weights are not below zero.
    pub open spec fn has_counts_in_range(self) -> bool {
        &&& self.top_k > 0
        &&& self.search_k matches Some(count) ==> count > 0
        &&& self.limit matches Some(count) ==> count > 0
        &&& self.neural_max_cost_gap matches Some(gap) ==> gap >= 0
        &&& self.neural_max_candidates matches Some(count) ==> count >= 2
        &&& self.neural_long_input_min_characters matches Some(count) ==> count > 0
        &&& self.neural_long_input_max_candidates matches Some(count) ==> count >= 2
        &&& self.neural_max_candidate_cost_gap matches Some(gap) ==> gap >= 0
        &&& self.neural_long_input_max_candidate_cost_gap matches Some(gap) ==> gap >= 0
        &&& self.discriminative_train_limit > 0
        &&& self.discriminative_dimensions > 0
        &&& self.discriminative_epochs > 0
        &&& self.word_bigram_weight >= 0
        &&& self.skip_bigram_weight >= 0
        &&& self.context_bigram_weight >= 0
        &&& self.corpus_bigram_min_count > 0
    }

    /// Whether the other numbers are ones that their options take: interpolation weights lie
    /// between zero and one, required leads and weights are finite and not below zero.
    pub open spec fn has_numbers_in_range(self) -> bool {
        &&& is_between_zero_and_one(self.discriminative_teacher_lambda)
        &&& forall|i: int|
            0 <= i < self.lambdas.len() ==> is_between_zero_and_one(#[trigger] self.lambdas[i])
        &&& forall|i: int|
            0 <= i < self.neural_min_margins.len() ==> is_finite_non_negative(
                #[trigger] self.neural_min_margins[i],
            )
        &&& forall|i: int|
            0 <= i < self.discriminative_weights.len() ==> is_finite_non_negative_single(
                #[trigger] self.discriminative_weights[i],
            )
    }

    /// Whether an option is given that only means something with a neural model.
    pub open spec fn needs_model(self) -> bool {
        self.neural_max_cost_gap is Some || self.neural_max_candidates is Some
            || self.neural_long_input_min_characters is Some
            || self.neural_long_input_max_candidates is Some || self.neural_max_candidate_cost_gap
            is Some || self.neural_long_input_max_candidate_cost_gap is Some
            || self.neural_min_margins.len() > 0 || self.neural_score_modes.len() > 0
    }

    /// The first rule that the options break, if any.
    pub open spec fn conflict(self) -> Option<Seq<char>> {
        if self.inputs.len() == 0 {
            Some("at least one --input is required\n"@ + USAGE@)
        } else if self.format == DatasetFormat::Ajimee && self.inputs.len() != 1 {
            Some("ajimee format requires exactly one --input"@)
        } else if self.search_k is Some && self.search_k->0 < self.top_k {
            Some("--search-k must be greater than or equal to --top-k"@)
        } else if self.uses_ranker() && self.word_bigram_corpora.len() == 0 {
            Some("n-gram weights require --word-bigram-corpus"@)
        } else if (self.neural_long_input_min_characters is Some) != (
        self.neural_long_input_max_candidates is Some) {
            Some(
                "long-input neural limits require both --neural-long-input-min-characters and --neural-long-input-max-candidates"@,
            )
        } else if self.neural_long_input_min_characters is Some && self.neural_max_candidates
            is None {
            Some("long-input neural limits require --neural-max-candidates"@)
        } else if self.neural_long_input_max_candidate_cost_gap is Some && (
        self.neural_long_input_min_characters is None || self.neural_max_candidate_cost_gap
            is None) {
            Some(
                "long-input neural candidate cost gap requires both --neural-long-input-min-characters and --neural-max-candidate-cost-gap"@,
            )
        } else if self.neural_max_candidates is Some && self.neural_long_input_max_candidates
            is Some && self.neural_long_input_max_candidates->0 < self.neural_max_candidates->0 {
            Some("--neural-long-input-max-candidates must be at least --neural-max-candidates"@)
        } else if self.needs_model() && self.neural_model is None {
            Some("neural scoring options require --neural-model"@)
        } else if self.neural_model is Some && self.discriminative_train is Some {
            Some("neural and discriminative rerankers cannot be evaluated together"@)
        } else if self.discriminative_teacher_model is Some && self.discriminative_train is None {
            Some("--discriminative-teacher-model requires --discriminative-train"@)
        } else if (self.discriminative_export_training is Some
            || self.discriminative_export_evaluation is Some) && self.discriminative_train
            is None {
            Some("discriminative export requires --discriminative-train"@)
        } else if self.discriminative_train is Some && !is_power_of_two(
            self.discriminative_dimensions as nat,
        ) {
            Some("--discriminative-dimensions must be a power of two"@)
        } else {
            None
        }
    }

    /// The options with the defaults of the lists that no argument filled.
    pub open spec fn completed(self) -> OptionsView {
        OptionsView {
            lambdas: if self.lambdas.len() == 0 {
                DEFAULT_LAMBDAS@
            } else {
                self.lambdas
            },
            neural_min_margins: if self.neural_min_margins.len() == 0 {
                seq![0]
            } else {
                self.neural_min_margins
            },
            neural_score_modes: if self.neural_score_modes.len() == 0 {
                seq![NeuralScoreMode::Total]
            } else {
                self.neural_score_modes
            },
            discriminative_weights: if self.discriminative_weights.len() == 0 {
                DEFAULT_WEIGHTS@
            } else {
                self.discriminative_weights
            },
            ..self
        }
    }
}

/// What a command line means: the format, then the options; or the error.
pub open spec fn parsed(
    arguments: Seq<Seq<char>>,
    numbers: Seq<NumberBits>,
    environment: DatasetEnvironment,
) -> Result<OptionsView, Seq<char>> {
    if arguments.len() == 0 {
        Err(USAGE@)
    } else {
        match DatasetFormat::named(arguments[0]) {
            None => Err(
                "unsupported evaluation format "@ + text_debug(arguments[0]) + "\n"@ + USAGE@,
            ),
            Some(format) => {
                let (items, stop) = given_from(
                    arguments,
                    names(VALUED_OPTIONS@),
                    names(FLAG_OPTIONS@),
                    true,
                    1,
                );
                match with_arguments(
                    initial(format, environment),
                    arguments,
                    numbers,
                    items,
                    items.len() as int,
                ) {
                    Err(error) => Err(error),
                    Ok(options) => match stop {
                        Stop::Unknown(at) => Err(
                            "unknown argument "@ + text_debug(arguments[at as int]) + "\n"@
                                + USAGE@,
                        ),
                        Stop::Missing(at) => Err(missing_value(arguments[at as int])),
                        Stop::End => match options.conflict() {
                            Some(error) => Err(error),
                            None => Ok(options.completed()),
                        },
                    },
                }
            },
        }
    }
}

#[verifier::spinoff_prover]
#[verifier::rlimit(60)]
proof fn a_value_keeps_counts_in_range(
    options: OptionsView,
    name: Seq<char>,
    value: Seq<char>,
    number: NumberBits,
)
    requires
        options.has_counts_in_range(),
        with_value(options, name, value, number) is Ok,
    ensures
        with_value(options, name, value, number)->Ok_0.has_counts_in_range(),
{
}

#[verifier::spinoff_prover]
#[verifier::rlimit(60)]
proof fn a_value_keeps_numbers_in_range(
    options: OptionsView,
    name: Seq<char>,
    value: Seq<char>,
    number: NumberBits,
)
    requires
        options.has_numbers_in_range(),
        with_value(options, name, value, number) is Ok,
    ensures
        with_value(options, name, value, number)->Ok_0.has_numbers_in_range(),
{
}

proof fn arguments_keep_values_in_range(
    options: OptionsView,
    arguments: Seq<Seq<char>>,
    numbers: Seq<NumberBits>,
    items: Seq<Given>,
    count: int,
)
    requires
        options.has_counts_in_range(),
        options.has_numbers_in_range(),
        with_arguments(options, arguments, numbers, items, count) is Ok,
    ensures
        with_arguments(options, arguments, numbers, items, count)->Ok_0.has_counts_in_range(),
        with_arguments(options, arguments, numbers, items, count)->Ok_0.has_numbers_in_range(),
    decreases count,
{
    if count > 0 {
        arguments_keep_values_in_range(options, arguments, numbers, items, count - 1);
        let before = with_arguments(options, arguments, numbers, items, count - 1)->Ok_0;
        let item = items[count - 1];
        if let Some(value) = item.value {
            let name = arguments[item.at as int];
            let text = arguments[value as int];
            let number = numbers[value as int];
            a_value_keeps_counts_in_range(before, name, text, number);
            a_value_keeps_numbers_in_range(before, name, text, number);
        }
    }
}

/// Options that were accepted break no rule: every value is in its range, weights come with a
/// corpus to count in, limits for long inputs come together and are never below the usual ones,
/// what needs a model or a training file comes with it, a neural model and a training file never
/// come together, and every list that a sweep runs over holds a value.
pub proof fn accepted_options_are_consistent(
    arguments: Seq<Seq<char>>,
    numbers: Seq<NumberBits>,
    environment: DatasetEnvironment,
)
    requires
        parsed(arguments, numbers, environment) is Ok,
    ensures
        ({
            let options = parsed(arguments, numbers, environment)->Ok_0;
            &&& options.inputs.len() > 0
            &&& options.format == DatasetFormat::Ajimee ==> options.inputs.len() == 1
            &&& !(options.neural_model is Some && options.discriminative_train is Some)
            &&& options.has_counts_in_range()
            &&& options.has_numbers_in_range()
            &&& options.search_k matches Some(search) ==> search >= options.top_k
            &&& options.uses_ranker() ==> options.word_bigram_corpora.len() > 0
            &&& options.neural_long_input_min_characters is Some
                <==> options.neural_long_input_max_candidates is Some
            &&& options.neural_long_input_min_characters is Some ==> options.neural_max_candidates
                is Some
            &&& options.neural_long_input_max_candidate_cost_gap is Some
                ==> options.neural_long_input_min_characters is Some
                && options.neural_max_candidate_cost_gap is Some
            &&& options.neural_model is None ==> options.neural_max_cost_gap is None
                && options.neural_max_candidates is None && options.neural_max_candidate_cost_gap
                is None && options.neural_min_margins == seq![0u64] && options.neural_score_modes
                == seq![NeuralScoreMode::Total]
            &&& options.discriminative_teacher_model is Some ==> options.discriminative_train
                is Some
            &&& options.discriminative_export_training is Some
                || options.discriminative_export_evaluation is Some
                ==> options.discriminative_train is Some
            &&& options.discriminative_train is Some ==> is_power_of_two(
                options.discriminative_dimensions as nat,
            )
            &&& options.neural_max_candidates matches Some(short) ==> (
            options.neural_long_input_max_candidates matches Some(long) ==> long >= short)
            &&& options.lambdas.len() > 0
            &&& options.neural_min_margins.len() > 0
            &&& options.neural_score_modes.len() > 0
            &&& options.discriminative_weights.len() > 0
        }),
{
    let format = DatasetFormat::named(arguments[0])->0;
    let items = given_from(
        arguments,
        names(VALUED_OPTIONS@),
        names(FLAG_OPTIONS@),
        true,
        1,
    ).0;
    arguments_keep_values_in_range(
        initial(format, environment),
        arguments,
        numbers,
        items,
        items.len() as int,
    );
    assert(DEFAULT_LAMBDAS@.len() == 12);
    assert(DEFAULT_WEIGHTS@.len() == 7);
}

fn power_of_two(value: usize) -> (result: bool)
    ensures
        result == is_power_of_two(value as nat),
    decreases value,
{
    if value == 1 {
        true
    } else if value > 1 && value % 2 == 0 {
        power_of_two(value / 2)
    } else {
        false
    }
}

fn missing(name: &str) -> (result: String)
    ensures
        result@ == missing_value(name@),
{
    let paths: [&'static str; 8] = PATH_OPTIONS;
    let mut is_path: bool = false;
    for index in 0..8usize
        invariant
            paths@ == PATH_OPTIONS@,
            is_path == exists|i: int| 0 <= i < index && (#[trigger] paths@[i])@ == name@,
    {
        if same_text(paths[index], name) {
            is_path = true;
        }
    }
    proof {
        let all = names(PATH_OPTIONS@);
        assert(all.len() == 8);
        if is_path {
            let found = choose|i: int| 0 <= i < 8 && (#[trigger] paths@[i])@ == name@;
            assert(all[found] == name@);
        } else if all.contains(name@) {
            let found = choose|i: int| 0 <= i < all.len() && all[i] == name@;
            assert(paths@[found]@ == name@);
        }
    }
    if is_path {
        message(name, " requires a path")
    } else if same_text(name, "--discriminative-teacher-lambda") {
        "--lambda requires a value".to_owned()
    } else {
        message(name, " requires a value")
    }
}

proof fn error_stays(
    options: OptionsView,
    arguments: Seq<Seq<char>>,
    numbers: Seq<NumberBits>,
    items: Seq<Given>,
    low: int,
    high: int,
)
    requires
        with_arguments(options, arguments, numbers, items, low) is Err,
        0 <= low <= high,
    ensures
        with_arguments(options, arguments, numbers, items, high) == with_arguments(
            options,
            arguments,
            numbers,
            items,
            low,
        ),
    decreases high - low,
{
    if low < high {
        error_stays(options, arguments, numbers, items, low, high - 1);
    }
}

impl Options {
    fn start(format: DatasetFormat, revision: Option<String>, sha256: Option<String>) -> (result:
        Self)
        ensures
            result@ == (OptionsView {
                dataset_revision: optional_text(revision),
                dataset_sha256: optional_text(sha256),
                ..initial(format, no_environment())
            }),
    {
        let result: Options = Options {
            format,
            inputs: Vec::new(),
            dataset_name: None,
            dataset_revision: revision,
            dataset_sha256: sha256,
            top_k: 10,
            search_k: None,
            context: ContextFilter::All,
            limit: None,
            failures: 10,
            json: false,
            neural_model: None,
            neural_max_cost_gap: None,
            neural_max_candidates: None,
            neural_long_input_min_characters: None,
            neural_long_input_max_candidates: None,
            neural_max_candidate_cost_gap: None,
            neural_long_input_max_candidate_cost_gap: None,
            lambdas: Vec::new(),
            neural_min_margins: Vec::new(),
            neural_score_modes: Vec::new(),
            discriminative_train: None,
            discriminative_teacher_model: None,
            discriminative_teacher_lambda: DEFAULT_TEACHER_LAMBDA,
            export_nbest: None,
            discriminative_export_training: None,
            discriminative_export_evaluation: None,
            discriminative_train_limit: 10_000,
            discriminative_dimensions: 262_144,
            discriminative_epochs: 3,
            discriminative_weights: Vec::new(),
            word_bigram_corpora: Vec::new(),
            word_bigram_weight: 0,
            skip_bigram_weight: 0,
            context_bigram_weight: 0,
            corpus_bigram_min_count: 1,
        };
        assert(result.inputs@ =~= Seq::<String>::empty());
        assert(texts(result.inputs@) =~= Seq::<Seq<char>>::empty());
        assert(texts(result.word_bigram_corpora@) =~= Seq::<Seq<char>>::empty());
        result
    }

    #[verifier::rlimit(60)]
    fn set_value(&mut self, name: &str, value: &str, number: NumberBits) -> (result: Result<
        (),
        String,
    >)
        ensures
            match with_value(old(self)@, name@, value@, number) {
                Ok(options) => result is Ok && final(self)@ == options,
                Err(error) => result is Err && result->Err_0@ == error,
            },
    {
        if same_text(name, "--input") {
            push_text(&mut self.inputs, value);
        } else if same_text(name, "--dataset-name") {
            self.dataset_name = Some(value.to_owned());
        } else if same_text(name, "--dataset-revision") {
            self.dataset_revision = Some(value.to_owned());
        } else if same_text(name, "--dataset-sha256") {
            self.dataset_sha256 = Some(value.to_owned());
        } else if same_text(name, "--top-k") {
            self.top_k = match positive(name, value) {
                Ok(found) => found,
                Err(error) => return Err(error),
            };
        } else if same_text(name, "--search-k") {
            self.search_k = match positive(name, value) {
                Ok(found) => Some(found),
                Err(error) => return Err(error),
            };
        } else if same_text(name, "--context") {
            self.context = match ContextFilter::parse(value) {
                Ok(found) => found,
                Err(error) => return Err(error),
            };
        } else if same_text(name, "--limit") {
            self.limit = match positive(name, value) {
                Ok(found) => Some(found),
                Err(error) => return Err(error),
            };
        } else if same_text(name, "--failures") {
            self.failures = match plain(name, value) {
                Ok(found) => found,
                Err(error) => return Err(error),
            };
        } else if same_text(name, "--neural-model") {
            self.neural_model = Some(value.to_owned());
        } else if same_text(name, "--neural-max-cost-gap") {
            self.neural_max_cost_gap = match non_negative(name, value) {
                Ok(found) => Some(found),
                Err(error) => return Err(error),
            };
        } else if same_text(name, "--neural-max-candidates") {
            self.neural_max_candidates = match two_or_more(name, value) {
                Ok(found) => Some(found),
                Err(error) => return Err(error),
            };
        } else if same_text(name, "--neural-long-input-min-characters") {
            self.neural_long_input_min_characters = match positive(name, value) {
                Ok(found) => Some(found),
                Err(error) => return Err(error),
            };
        } else if same_text(name, "--neural-long-input-max-candidates") {
            self.neural_long_input_max_candidates = match two_or_more(name, value) {
                Ok(found) => Some(found),
                Err(error) => return Err(error),
            };
        } else if same_text(name, "--neural-max-candidate-cost-gap") {
            self.neural_max_candidate_cost_gap = match non_negative(name, value) {
                Ok(found) => Some(found),
                Err(error) => return Err(error),
            };
        } else if same_text(name, "--neural-long-input-max-candidate-cost-gap") {
            self.neural_long_input_max_candidate_cost_gap = match non_negative(name, value) {
                Ok(found) => Some(found),
                Err(error) => return Err(error),
            };
        } else if same_text(name, "--lambda") {
            let found: u64 = match lambda(number) {
                Ok(found) => found,
                Err(error) => return Err(error),
            };
            self.lambdas.push(found);
        } else if same_text(name, "--neural-min-margin") {
            let found: u64 = match margin(name, number) {
                Ok(found) => found,
                Err(error) => return Err(error),
            };
            self.neural_min_margins.push(found);
        } else if same_text(name, "--neural-score-mode") {
            let mode: NeuralScoreMode = match NeuralScoreMode::parse(value) {
                Ok(found) => found,
                Err(error) => return Err(error),
            };
            self.neural_score_modes.push(mode);
        } else if same_text(name, "--discriminative-train") {
            self.discriminative_train = Some(value.to_owned());
        } else if same_text(name, "--discriminative-teacher-model") {
            self.discriminative_teacher_model = Some(value.to_owned());
        } else if same_text(name, "--discriminative-teacher-lambda") {
            self.discriminative_teacher_lambda = match lambda(number) {
                Ok(found) => found,
                Err(error) => return Err(error),
            };
        } else if same_text(name, "--export-nbest") {
            self.export_nbest = Some(value.to_owned());
        } else if same_text(name, "--discriminative-export-training") {
            self.discriminative_export_training = Some(value.to_owned());
        } else if same_text(name, "--discriminative-export-evaluation") {
            self.discriminative_export_evaluation = Some(value.to_owned());
        } else if same_text(name, "--discriminative-train-limit") {
            self.discriminative_train_limit = match positive(name, value) {
                Ok(found) => found,
                Err(error) => return Err(error),
            };
        } else if same_text(name, "--discriminative-dimensions") {
            self.discriminative_dimensions = match positive(name, value) {
                Ok(found) => found,
                Err(error) => return Err(error),
            };
        } else if same_text(name, "--discriminative-epochs") {
            self.discriminative_epochs = match positive(name, value) {
                Ok(found) => found,
                Err(error) => return Err(error),
            };
        } else if same_text(name, "--discriminative-weight") {
            let found: u32 = match weight(name, number) {
                Ok(found) => found,
                Err(error) => return Err(error),
            };
            self.discriminative_weights.push(found);
        } else if same_text(name, "--word-bigram-corpus") {
            push_text(&mut self.word_bigram_corpora, value);
        } else if same_text(name, "--word-bigram-weight") {
            self.word_bigram_weight = match non_negative(name, value) {
                Ok(found) => found,
                Err(error) => return Err(error),
            };
        } else if same_text(name, "--skip-bigram-weight") {
            self.skip_bigram_weight = match non_negative(name, value) {
                Ok(found) => found,
                Err(error) => return Err(error),
            };
        } else if same_text(name, "--context-bigram-weight") {
            self.context_bigram_weight = match non_negative(name, value) {
                Ok(found) => found,
                Err(error) => return Err(error),
            };
        } else if same_text(name, "--corpus-bigram-min-count") {
            self.corpus_bigram_min_count = match small(name, value) {
                Ok(found) => found,
                Err(error) => return Err(error),
            };
        }
        Ok(())
    }

    /// Reads a command line. `numbers` says of each argument what it reads as a number.
    pub fn parse(
        arguments: &[String],
        numbers: &[NumberBits],
        environment: &DatasetEnvironment,
    ) -> (result: Result<Self, String>)
        requires
            numbers@.len() == arguments@.len(),
        ensures
            match parsed(texts(arguments@), numbers@, *environment) {
                Ok(options) => result is Ok && result->Ok_0@ == options,
                Err(error) => result is Err && result->Err_0@ == error,
            },
    {
        if arguments.len() == 0 {
            return Err(USAGE.to_owned());
        }
        let ghost all = texts(arguments@);
        assert forall|i: int| 0 <= i < all.len() implies all[i] == arguments@[i]@ by {}
        let format: DatasetFormat = match DatasetFormat::parse(arguments[0].as_str()) {
            Ok(format) => format,
            Err(error) => return Err(error),
        };
        let valued: [&'static str; 34] = VALUED_OPTIONS;
        let flags: [&'static str; 3] = FLAG_OPTIONS;
        let (items, stop) = given_options(
            arguments,
            valued.as_slice(),
            flags.as_slice(),
            true,
            1,
        );
        let ghost start = initial(format, *environment);
        let mut options: Options = Options::start(
            format,
            environment.revision_of(format),
            environment.sha256_of(format),
        );
        assert(options@ == start);
        for index in 0..items.len()
            invariant
                all == texts(arguments@),
                numbers@.len() == arguments@.len(),
                forall|i: int| 0 <= i < all.len() ==> all[i] == arguments@[i]@,
                forall|i: int|
                    0 <= i < items@.len() ==> (#[trigger] items@[i]).at < arguments@.len() && (
                    items@[i].value matches Some(value) ==> value < arguments@.len()),
                with_arguments(start, all, numbers@, items@, index as int) == Ok::<
                    OptionsView,
                    Seq<char>,
                >(options@),
                DatasetFormat::named(all[0]) == Some(format),
                all.len() > 0,
                start == initial(format, *environment),
                (items@, stop) == given_from(
                    all,
                    names(VALUED_OPTIONS@),
                    names(FLAG_OPTIONS@),
                    true,
                    1,
                ),
        {
            let item: Given = items[index];
            let ghost next = with_arguments(start, all, numbers@, items@, index + 1);
            assert(next == with_argument(options@, all, numbers@, item));
            let step: Result<(), String> = options.set_argument(arguments, numbers, item);
            match step {
                Ok(()) => {},
                Err(error) => {
                    proof {
                        error_stays(start, all, numbers@, items@, index + 1, items@.len() as int);
                    }
                    return Err(error);
                },
            }
        }
        match stop {
            Stop::Unknown(at) => {
                let shown: String = debug_text(arguments[at].as_str());
                let first: String = joined("unknown argument ", shown.as_str());
                let line: String = joined(first.as_str(), "\n");
                Err(joined(line.as_str(), USAGE))
            },
            Stop::Missing(at) => Err(missing(arguments[at].as_str())),
            Stop::End => match options.first_conflict() {
                Some(error) => Err(error),
                None => {
                    options.complete();
                    Ok(options)
                },
            },
        }
    }

    fn set_argument(&mut self, arguments: &[String], numbers: &[NumberBits], item: Given) -> (result:
        Result<(), String>)
        requires
            numbers@.len() == arguments@.len(),
            item.at < arguments@.len(),
            item.value matches Some(value) ==> value < arguments@.len(),
        ensures
            match with_argument(old(self)@, texts(arguments@), numbers@, item) {
                Ok(options) => result is Ok && final(self)@ == options,
                Err(error) => result is Err && result->Err_0@ == error,
            },
    {
        let name: &str = arguments[item.at].as_str();
        assert(texts(arguments@)[item.at as int] == name@);
        match item.value {
            Some(value) => {
                assert(texts(arguments@)[value as int] == arguments@[value as int]@);
                self.set_value(name, arguments[value].as_str(), numbers[value])
            },
            None => {
                if same_text(name, "--json") {
                    self.json = true;
                } else if same_text(name, "--help") || same_text(name, "-h") {
                    return Err(USAGE.to_owned());
                } else {
                    push_text(&mut self.inputs, name);
                }
                Ok(())
            },
        }
    }

    /// Whether the candidates are ranked by a corpus.
    pub fn uses_corpus_ranker(&self) -> (result: bool)
        ensures
            result == self@.uses_ranker(),
    {
        self.word_bigram_weight > 0 || self.skip_bigram_weight > 0 || self.context_bigram_weight > 0
    }

    fn first_conflict(&self) -> (result: Option<String>)
        ensures
            optional_text(result) == self@.conflict(),
    {
        if self.inputs.len() == 0 {
            return Some(joined("at least one --input is required\n", USAGE));
        }
        if self.format == DatasetFormat::Ajimee && self.inputs.len() != 1 {
            return Some("ajimee format requires exactly one --input".to_owned());
        }
        if let Some(search_k) = self.search_k {
            if search_k < self.top_k {
                return Some("--search-k must be greater than or equal to --top-k".to_owned());
            }
        }
        if self.uses_corpus_ranker() && self.word_bigram_corpora.len() == 0 {
            return Some("n-gram weights require --word-bigram-corpus".to_owned());
        }
        if self.neural_long_input_min_characters.is_some()
            != self.neural_long_input_max_candidates.is_some() {
            return Some(
                "long-input neural limits require both --neural-long-input-min-characters and --neural-long-input-max-candidates".to_owned(),
            );
        }
        if self.neural_long_input_min_characters.is_some() && self.neural_max_candidates.is_none() {
            return Some("long-input neural limits require --neural-max-candidates".to_owned());
        }
        if self.neural_long_input_max_candidate_cost_gap.is_some() && (
        self.neural_long_input_min_characters.is_none()
            || self.neural_max_candidate_cost_gap.is_none()) {
            return Some(
                "long-input neural candidate cost gap requires both --neural-long-input-min-characters and --neural-max-candidate-cost-gap".to_owned(),
            );
        }
        if let Some(short) = self.neural_max_candidates {
            if let Some(long) = self.neural_long_input_max_candidates {
                if long < short {
                    return Some(
                        "--neural-long-input-max-candidates must be at least --neural-max-candidates".to_owned(),
                    );
                }
            }
        }
        if (self.neural_max_cost_gap.is_some() || self.neural_max_candidates.is_some()
            || self.neural_long_input_min_characters.is_some()
            || self.neural_long_input_max_candidates.is_some()
            || self.neural_max_candidate_cost_gap.is_some()
            || self.neural_long_input_max_candidate_cost_gap.is_some()
            || self.neural_min_margins.len() > 0 || self.neural_score_modes.len() > 0)
            && self.neural_model.is_none() {
            return Some("neural scoring options require --neural-model".to_owned());
        }
        if self.neural_model.is_some() && self.discriminative_train.is_some() {
            return Some(
                "neural and discriminative rerankers cannot be evaluated together".to_owned(),
            );
        }
        if self.discriminative_teacher_model.is_some() && self.discriminative_train.is_none() {
            return Some(
                "--discriminative-teacher-model requires --discriminative-train".to_owned(),
            );
        }
        if (self.discriminative_export_training.is_some()
            || self.discriminative_export_evaluation.is_some())
            && self.discriminative_train.is_none() {
            return Some("discriminative export requires --discriminative-train".to_owned());
        }
        if self.discriminative_train.is_some() && !power_of_two(self.discriminative_dimensions) {
            return Some("--discriminative-dimensions must be a power of two".to_owned());
        }
        None
    }

    fn complete(&mut self)
        ensures
            final(self)@ == old(self)@.completed(),
    {
        if self.lambdas.len() == 0 {
            let defaults: [u64; 12] = DEFAULT_LAMBDAS;
            let mut lambdas: Vec<u64> = Vec::new();
            for index in 0..12usize
                invariant
                    defaults@ == DEFAULT_LAMBDAS@,
                    lambdas@ == DEFAULT_LAMBDAS@.take(index as int),
            {
                lambdas.push(defaults[index]);
                assert(lambdas@ =~= DEFAULT_LAMBDAS@.take(index + 1));
            }
            assert(lambdas@ =~= DEFAULT_LAMBDAS@);
            self.lambdas = lambdas;
        }
        if self.neural_min_margins.len() == 0 {
            self.neural_min_margins.push(0);
            assert(self.neural_min_margins@ =~= seq![0]);
        }
        if self.neural_score_modes.len() == 0 {
            self.neural_score_modes.push(NeuralScoreMode::Total);
            assert(self.neural_score_modes@ =~= seq![NeuralScoreMode::Total]);
        }
        if self.discriminative_weights.len() == 0 {
            let defaults: [u32; 7] = DEFAULT_WEIGHTS;
            let mut weights: Vec<u32> = Vec::new();
            for index in 0..7usize
                invariant
                    defaults@ == DEFAULT_WEIGHTS@,
                    weights@ == DEFAULT_WEIGHTS@.take(index as int),
            {
                weights.push(defaults[index]);
                assert(weights@ =~= DEFAULT_WEIGHTS@.take(index + 1));
            }
            assert(weights@ =~= DEFAULT_WEIGHTS@);
            self.discriminative_weights = weights;
        }
    }
}

/// Without an option for it, ten candidates count, ten failures are listed, every item is taken, and
/// no bigram counts; training takes 10000 items, three times, with 262144 features.
pub proof fn options_have_defaults(format: DatasetFormat, environment: DatasetEnvironment)
    ensures
        ({
            let options = initial(format, environment);
            &&& options.format == format && options.inputs.len() == 0
            &&& options.top_k == 10 && options.failures == 10 && options.search_k is None
            &&& options.limit is None && options.context == ContextFilter::All && !options.json
            &&& options.discriminative_train_limit == 10_000 && options.discriminative_epochs == 3
            &&& options.discriminative_dimensions == 262_144
            &&& options.word_bigram_weight == 0 && options.skip_bigram_weight == 0
            &&& options.context_bigram_weight == 0 && options.corpus_bigram_min_count == 1
        }),
{
}

/// A count is read from its digits: any count, one that is not zero, one from two on, and one of 32
/// bits that is not zero.
pub proof fn option_counts_are_read(name: Seq<char>, value: nat)
    requires
        value <= usize::MAX,
    ensures
        plain_count(name, crate::text::decimal(value)) == Ok::<usize, Seq<char>>(value as usize),
        positive_value(name, crate::text::decimal(value)) is Ok <==> value > 0,
        positive_value(name, crate::text::decimal(value)) matches Ok(found) ==> found == value,
        at_least_two(name, crate::text::decimal(value)) is Ok <==> value >= 2,
        at_least_two(name, crate::text::decimal(value)) matches Ok(found) ==> found == value,
        small_positive(name, crate::text::decimal(value)) is Ok <==> 0 < value <= 4_294_967_295,
        small_positive(name, crate::text::decimal(value)) matches Ok(found) ==> found == value,
        non_negative_value(name, crate::text::decimal(value)) is Ok <==> value <= 2_147_483_647,
        non_negative_value(name, crate::text::decimal(value)) matches Ok(found) ==> found == value,
        non_negative_value(name, seq!['-'] + crate::text::decimal(value)) is Ok <==> value == 0,
{
    crate::text::decimal_reads_back(value);
    crate::text::signs_stand_before_the_digits(value, crate::text::decimal(value));
}

/// A filter takes the items with context, those without, or all.
pub proof fn filters_look_at_the_context(context: Seq<char>)
    ensures
        ContextFilter::All.takes(context),
        ContextFilter::Absent.takes(context) <==> context.len() == 0,
        ContextFilter::Present.takes(context) <==> context.len() > 0,
{
}

/// Powers of two are those that doubling gives, beginning with one.
pub proof fn doubling_gives_powers_of_two(value: nat)
    ensures
        is_power_of_two(1),
        !is_power_of_two(0),
        value > 0 ==> (is_power_of_two(2 * value) <==> is_power_of_two(value)),
        value > 0 ==> !is_power_of_two(2 * value + 1),
{
    reveal_with_fuel(is_power_of_two, 2);
}

} // verus!
