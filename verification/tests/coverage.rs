//! Coverage of annotated corpora by dictionaries.

use slime::coverage::{
    coverage_reports, normalize_reading, visit_skk_entries, visit_tsv_entries, Corpus,
    DictionaryFormat, DictionaryReport, DictionarySource,
};
use slime::coverage_options::{CoverageOptions, COVERAGE_USAGE};

fn source(label: &str, format: DictionaryFormat, text: &str) -> DictionarySource {
    DictionarySource {
        label: label.to_owned(),
        format,
        bytes: text.len() as u64,
        text: text.to_owned(),
    }
}

fn parse(arguments: &[&str]) -> Result<CoverageOptions, String> {
    let arguments: Vec<String> = arguments.iter().map(|argument| argument.to_string()).collect();
    CoverageOptions::parse(&arguments)
}

#[test]
fn tsv_reader_uses_first_two_columns() {
    let entries = visit_tsv_entries("かんじ\t漢字\t1\t2\t300");
    assert_eq!(entries, [("かんじ".to_owned(), "漢字".to_owned())]);
}

#[test]
fn skk_reader_removes_annotations_and_skips_okuri_entries() {
    let mut entries = visit_skk_entries("かんじ /漢字;annotation/感じ/");
    entries.extend(visit_skk_entries("おくr /送/"));
    assert_eq!(
        entries,
        [
            ("かんじ".to_owned(), "漢字".to_owned()),
            ("かんじ".to_owned(), "感じ".to_owned())
        ]
    );
}

#[test]
fn katakana_readings_are_normalized() {
    assert_eq!(normalize_reading("カンジ"), "かんじ");
    assert_eq!(normalize_reading("かんじ"), "かんじ");
}

#[test]
fn hiragana_surfaces_are_literal_even_when_pronunciation_is_katakana() {
    let corpus = Corpus::load(&["する/スル 漢字/カンジ\n".to_owned()]).expect("load corpus");

    assert_eq!(corpus.tokens.len(), 1);
    assert_eq!(corpus.tokens[0].0, "かんじ");
}

#[test]
fn comments_and_bracketed_candidates_are_no_entries() {
    assert!(visit_skk_entries(";; okuri-nasi entries.").is_empty());
    assert!(visit_skk_entries("かんじ").is_empty());
    assert!(visit_skk_entries("かんじ /[かじ/;注/").is_empty());
    assert!(visit_tsv_entries("かんじ").is_empty());
    assert!(visit_tsv_entries("\t漢字").is_empty());
}

#[test]
fn a_corpus_needs_a_token_that_is_not_literal() {
    assert_eq!(
        Corpus::load(&["する/スル\n".to_owned()]).unwrap_err(),
        "corpus contains no non-literal surface/reading tokens"
    );
}

#[test]
fn labels_are_reported_in_order() {
    let corpus = Corpus::load(&[
        "漢字/かんじ 感じ/かんじ 漢字/カンジ".to_owned(),
        "変換/へんかん".to_owned(),
    ])
    .unwrap();
    let summary = corpus.summary();
    assert_eq!(summary.files, 2);
    assert_eq!(summary.token_occurrences, 4);
    assert_eq!(summary.unique_readings, 2);
    assert_eq!(summary.unique_pairs, 3);
    let reports = coverage_reports(
        &[
            source("skk", DictionaryFormat::Skk, "かんじ /漢字/幹事/\n"),
            source("base", DictionaryFormat::Tsv, "へんかん\t変換\n"),
            source("base", DictionaryFormat::Tsv, "カンジ\t感じ\nへんかん\t変換\n"),
        ],
        &corpus,
    );
    assert_eq!(reports.len(), 2);
    assert_eq!(reports[0].label, "base");
    assert_eq!(reports[0].source_files, 2);
    assert_eq!(reports[0].entries, 3);
    assert_eq!(reports[0].exact_pair.covered_occurrences, 2);
    assert_eq!(reports[0].exact_pair.covered_unique, 2);
    assert_eq!(reports[0].exact_pair.total_occurrences, 4);
    assert_eq!(reports[0].exact_pair.total_unique, 3);
    assert_eq!(reports[0].reading.covered_occurrences, 4);
    assert_eq!(reports[0].reading.covered_unique, 2);
    assert_eq!(reports[1].label, "skk");
    assert_eq!(reports[1].exact_pair.covered_occurrences, 2);
    assert_eq!(reports[1].reading.covered_occurrences, 3);
    let empty = DictionaryReport::new("none").finish(&corpus);
    assert_eq!(empty.entries, 0);
    assert_eq!(empty.reading.covered_occurrences, 0);
}

#[test]
fn coverage_options_take_three_values() {
    let options = parse(&[
        "--corpus",
        "corpus.txt",
        "--dictionary",
        "base",
        "tsv",
        "mozc.tsv",
        "--json",
    ])
    .unwrap();
    assert_eq!(options.corpus_paths, ["corpus.txt"]);
    assert_eq!(options.sources[0].label, "base");
    assert_eq!(options.sources[0].format, DictionaryFormat::Tsv);
    assert_eq!(options.sources[0].path, "mozc.tsv");
    assert!(options.json);
    assert_eq!(parse(&[]).unwrap_err(), COVERAGE_USAGE);
    assert_eq!(parse(&["--help"]).unwrap_err(), COVERAGE_USAGE);
    assert_eq!(parse(&["--corpus"]).unwrap_err(), "--corpus requires PATH");
    assert_eq!(
        parse(&["--dictionary"]).unwrap_err(),
        "--dictionary requires LABEL"
    );
    assert_eq!(
        parse(&["--dictionary", "base"]).unwrap_err(),
        "--dictionary requires FORMAT"
    );
    assert_eq!(
        parse(&["--dictionary", "base", "csv"]).unwrap_err(),
        "unsupported dictionary format \"csv\"; expected tsv or skk"
    );
    assert_eq!(
        parse(&["--dictionary", "base", "skk"]).unwrap_err(),
        "--dictionary requires PATH"
    );
    assert_eq!(
        parse(&["--other"]).unwrap_err(),
        format!("unknown argument \"--other\"\n{COVERAGE_USAGE}")
    );
}
