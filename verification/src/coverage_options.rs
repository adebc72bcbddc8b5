//! The options of the tool that measures dictionary coverage.

use crate::coverage::{format_named, format_problem, DictionaryFormat};
use crate::primitives::{debug_text, text_debug};
use crate::text::{joined, same_text, texts};
use vstd::prelude::*;
use vstd::string::*;

verus! {

/// How to call the coverage tool.
pub const COVERAGE_USAGE: &'static str =
    "usage: slime-dictionary-coverage --corpus PATH [--corpus PATH ...] \
     --dictionary LABEL FORMAT PATH [--dictionary LABEL FORMAT PATH ...] [--json]\n\
     FORMAT is tsv (reading<TAB>surface) or skk";

/// A dictionary that is to be measured.
#[derive(Debug, PartialEq, Eq)]
pub struct SourceOption {
    pub label: String,
    pub format: DictionaryFormat,
    pub path: String,
}

/// The options of the coverage tool. Paths are kept as they were written.
#[derive(Debug, PartialEq, Eq)]
pub struct CoverageOptions {
    pub corpus_paths: Vec<String>,
    pub sources: Vec<SourceOption>,
    pub json: bool,
}

/// The options as a mathematical value.
pub ghost struct CoverageOptionsView {
    pub corpus_paths: Seq<Seq<char>>,
    pub sources: Seq<(Seq<char>, DictionaryFormat, Seq<char>)>,
    pub json: bool,
}

/// The values of some sources.
pub open spec fn source_views(sources: Seq<SourceOption>) -> Seq<
    (Seq<char>, DictionaryFormat, Seq<char>),
> {
    Seq::new(sources.len(), |i: int| (sources[i].label@, sources[i].format, sources[i].path@))
}

impl View for CoverageOptions {
    type V = CoverageOptionsView;

    open spec fn view(&self) -> CoverageOptionsView {
        CoverageOptionsView {
            corpus_paths: texts(self.corpus_paths@),
            sources: source_views(self.sources@),
            json: self.json,
        }
    }
}

/// What one option adds, and how many arguments it takes.
pub open spec fn with_option(
    state: CoverageOptionsView,
    arguments: Seq<Seq<char>>,
    index: int,
) -> Result<(CoverageOptionsView, int), Seq<char>> {
    let argument = arguments[index];
    if argument == "--corpus"@ {
        if index + 1 >= arguments.len() {
            Err("--corpus requires PATH"@)
        } else {
            Ok(
                (
                    CoverageOptionsView {
                        corpus_paths: state.corpus_paths.push(arguments[index + 1]),
                        ..state
                    },
                    2,
                ),
            )
        }
    } else if argument == "--dictionary"@ {
        if index + 1 >= arguments.len() {
            Err("--dictionary requires LABEL"@)
        } else if index + 2 >= arguments.len() {
            Err("--dictionary requires FORMAT"@)
        } else if format_named(arguments[index + 2]) is None {
            Err(format_problem(arguments[index + 2]))
        } else if index + 3 >= arguments.len() {
            Err("--dictionary requires PATH"@)
        } else {
            Ok(
                (
                    CoverageOptionsView {
                        sources: state.sources.push(
                            (
                                arguments[index + 1],
                                format_named(arguments[index + 2])->0,
                                arguments[index + 3],
                            ),
                        ),
                        ..state
                    },
                    4,
                ),
            )
        }
    } else if argument == "--json"@ {
        Ok((CoverageOptionsView { json: true, ..state }, 1))
    } else if argument == "--help"@ || argument == "-h"@ {
        Err(COVERAGE_USAGE@)
    } else {
        Err("unknown argument "@ + text_debug(argument) + "\n"@ + COVERAGE_USAGE@)
    }
}

/// The options from `index` on.
pub open spec fn coverage_options_from(
    state: CoverageOptionsView,
    arguments: Seq<Seq<char>>,
    index: int,
) -> Result<CoverageOptionsView, Seq<char>>
    decreases arguments.len() - index,
{
    if index >= arguments.len() {
        if state.corpus_paths.len() == 0 || state.sources.len() == 0 {
            Err(COVERAGE_USAGE@)
        } else {
            Ok(state)
        }
    } else {
        match with_option(state, arguments, index) {
            Err(problem) => Err(problem),
            Ok(next) => coverage_options_from(
                next.0,
                arguments,
                if next.1 <= 1 {
                    index + 1
                } else if next.1 <= 2 {
                    index + 2
                } else {
                    index + 4
                },
            ),
        }
    }
}

/// The options before any argument is read.
pub open spec fn no_coverage_options() -> CoverageOptionsView {
    CoverageOptionsView { corpus_paths: Seq::empty(), sources: Seq::empty(), json: false }
}

fn unknown_argument(argument: &str) -> (result: String)
    ensures
        result@ == "unknown argument "@ + text_debug(argument@) + "\n"@ + COVERAGE_USAGE@,
{
    let quoted: String = debug_text(argument);
    let start: String = joined("unknown argument ", quoted.as_str());
    let line: String = joined(start.as_str(), "\n");
    joined(line.as_str(), COVERAGE_USAGE)
}

impl CoverageOptions {
    fn read_option(&mut self, arguments: &[String], index: usize) -> (result: Result<usize, String>)
        requires
            index < arguments@.len(),
        ensures
            ({
                let owed = with_option(old(self)@, texts(arguments@), index as int);
                &&& result is Ok <==> owed is Ok
                &&& result matches Ok(taken) ==> owed == Ok::<(CoverageOptionsView, int), Seq<char>>(
                    (final(self)@, taken as int),
                ) && index + taken <= arguments@.len()
                &&& result matches Err(problem) ==> owed == Err::<
                    (CoverageOptionsView, int),
                    Seq<char>,
                >(problem@)
            }),
    {
        let ghost all = texts(arguments@);
        let left: usize = arguments.len() - index - 1;
        let argument: &str = arguments[index].as_str();
        assert(all[index as int] == argument@);
        proof {
            reveal_strlit("--corpus");
            reveal_strlit("--dictionary");
            reveal_strlit("--json");
            reveal_strlit("--help");
            reveal_strlit("-h");
        }
        if same_text(argument, "--corpus") {
            if left < 1 {
                return Err("--corpus requires PATH".to_owned());
            }
            let ghost before = texts(self.corpus_paths@);
            self.corpus_paths.push(arguments[index + 1].clone());
            assert(texts(self.corpus_paths@) =~= before.push(all[index + 1]));
            return Ok(2);
        }
        if same_text(argument, "--dictionary") {
            if left < 1 {
                return Err("--dictionary requires LABEL".to_owned());
            }
            if left < 2 {
                return Err("--dictionary requires FORMAT".to_owned());
            }
            let format: DictionaryFormat = match DictionaryFormat::parse(
                arguments[index + 2].as_str(),
            ) {
                Ok(format) => format,
                Err(problem) => {
                    return Err(problem);
                },
            };
            if left < 3 {
                return Err("--dictionary requires PATH".to_owned());
            }
            let ghost before = source_views(self.sources@);
            self.sources.push(
                SourceOption {
                    label: arguments[index + 1].clone(),
                    format,
                    path: arguments[index + 3].clone(),
                },
            );
            assert(source_views(self.sources@) =~= before.push(
                (all[index + 1], format, all[index + 3]),
            ));
            return Ok(4);
        }
        if same_text(argument, "--json") {
            self.json = true;
            return Ok(1);
        }
        if same_text(argument, "--help") || same_text(argument, "-h") {
            return Err(COVERAGE_USAGE.to_owned());
        }
        Err(unknown_argument(argument))
    }

    /// The options that the arguments give.
    pub fn parse(arguments: &[String]) -> (result: Result<Self, String>)
        ensures
            ({
                let owed = coverage_options_from(no_coverage_options(), texts(arguments@), 0);
                &&& result is Ok <==> owed is Ok
                &&& result matches Ok(options) ==> owed == Ok::<CoverageOptionsView, Seq<char>>(
                    options@,
                )
                &&& result matches Err(problem) ==> owed == Err::<CoverageOptionsView, Seq<char>>(
                    problem@,
                )
            }),
    {
        let ghost all = texts(arguments@);
        let mut options: CoverageOptions = CoverageOptions {
            corpus_paths: Vec::new(),
            sources: Vec::new(),
            json: false,
        };
        assert(texts(options.corpus_paths@) =~= Seq::empty());
        assert(source_views(options.sources@) =~= Seq::empty());
        let mut index: usize = 0;
        while index < arguments.len()
            invariant
                all == texts(arguments@),
                index <= arguments@.len(),
                coverage_options_from(no_coverage_options(), all, 0) == coverage_options_from(
                    options@,
                    all,
                    index as int,
                ),
            decreases arguments@.len() - index,
        {
            match options.read_option(arguments, index) {
                Ok(taken) => {
                    index += taken;
                },
                Err(problem) => {
                    return Err(problem);
                },
            }
        }
        assert(options@.corpus_paths.len() == options.corpus_paths@.len());
        assert(options@.sources.len() == options.sources@.len());
        if options.corpus_paths.len() == 0 || options.sources.len() == 0 {
            return Err(COVERAGE_USAGE.to_owned());
        }
        Ok(options)
    }
}

/// Accepted options name a corpus and a dictionary.
pub proof fn accepted_coverage_options_are_complete(
    state: CoverageOptionsView,
    arguments: Seq<Seq<char>>,
    index: int,
)
    ensures
        coverage_options_from(state, arguments, index) matches Ok(options) ==> {
            &&& options.corpus_paths.len() > 0
            &&& options.sources.len() > 0
        },
    decreases arguments.len() - index,
{
    if index < arguments.len() {
        if let Ok(next) = with_option(state, arguments, index) {
            accepted_coverage_options_are_complete(
                next.0,
                arguments,
                if next.1 <= 1 {
                    index + 1
                } else if next.1 <= 2 {
                    index + 2
                } else {
                    index + 4
                },
            );
        }
    }
}

} // verus!
