//! What is written can be read again.

use slime::context_rules::{serialize_rules, Rule};
use slime::corpus::parse_annotated_corpus_line;
use slime::devset::{annotated_corpus, write_tokens, DevItem};
use slime::dictionary_pack::BuildOptions;
use slime::pack_text::{build_pack, read_context_rules, read_entries};
use slime::phrases::{render_phrases, Phrase};
use slime::tables::load_items_from_reader;
use slime::text::{columns_of, lines_of};

fn pair(surface: &str, reading: &str) -> (String, String) {
    (surface.to_owned(), reading.to_owned())
}

fn rule(previous: &str, reading: &str, surface: &str) -> Rule {
    Rule {
        previous_surface: previous.to_owned(),
        reading: reading.to_owned(),
        surface: surface.to_owned(),
        count: 3,
        margin: 2,
        share_basis_points: 9_000,
    }
}

#[test]
fn tokens_are_read_from_the_line_they_stand_on() {
    let tokens = vec![pair("文章", "ぶんしょう"), pair("a/b", "えーびー"), pair(";", "せみ")];
    let mut line = String::new();
    write_tokens(&mut line, &tokens);
    assert_eq!(line, "文章/ぶんしょう a/b/えーびー ;/せみ");
    assert_eq!(parse_annotated_corpus_line(&line).unwrap(), tokens);
    assert_eq!(parse_annotated_corpus_line("").unwrap(), Vec::new());
}

#[test]
fn a_line_that_begins_as_a_comment_is_not_read() {
    let mut line = String::new();
    write_tokens(&mut line, &[pair(";;", "せみ")]);
    assert_eq!(parse_annotated_corpus_line(&line).unwrap(), Vec::new());
}

#[test]
fn a_corpus_has_a_line_for_each_item() {
    let items: Vec<DevItem> = [pair("漢字", "かんじ"), pair("感じ", "かんじ")]
        .into_iter()
        .map(|token| DevItem {
            source_split: "train".to_owned(),
            index: "1".to_owned(),
            context_text: String::new(),
            input: "カンジ".to_owned(),
            expected_output: vec![token.0.clone()],
            original_text: String::new(),
            annotated_tokens: vec![token],
        })
        .collect();
    let rows = lines_of(&annotated_corpus(&items));
    assert_eq!(rows.len(), 2);
    for (row, item) in rows.iter().zip(&items) {
        assert_eq!(parse_annotated_corpus_line(row).unwrap(), item.annotated_tokens);
    }
}

#[test]
fn rules_of_a_corpus_are_rules_of_a_pack() {
    let rules = [rule("文章", "かんじ", "漢字"), rule("良い", "かんじ", "感じ")];
    let read = read_context_rules(&serialize_rules(&rules)).unwrap();
    assert_eq!(read.len(), 2);
    for (found, given) in read.iter().zip(&rules) {
        assert_eq!(found.previous_surface, given.previous_surface);
        assert_eq!(found.reading, given.reading);
        assert_eq!(found.surface, given.surface);
        assert_eq!(found.priority, 0);
    }
    let commented = serialize_rules(&[rule("#1", "かんじ", "漢字")]);
    assert_eq!(read_context_rules(&commented).unwrap().len(), 0);
}

#[test]
fn entries_of_a_pack_are_read_again() {
    let options = BuildOptions {
        id: "sample".to_owned(),
        name: "サンプル".to_owned(),
        version: "1".to_owned(),
        license: "Example-Test-Only".to_owned(),
        minimum_slime_version: "0.1.0".to_owned(),
        published_at: "2026-08-08".to_owned(),
        provenance: "fixture/sample".to_owned(),
        entries: Some("entries.tsv".to_owned()),
        context_rules: None,
        output: "sample.slime-dict".to_owned(),
        json: false,
    };
    let source = "あい\t愛\t-7\nかんじ\t漢字\t4000\n";
    let built = build_pack(&options, Some(source), None).unwrap();
    assert!(built.source.ends_with(source));
    let read = read_entries(source).unwrap();
    assert_eq!(read.len(), 2);
    assert_eq!((read[0].reading.as_str(), read[0].cost), ("あい", -7));
    assert_eq!((read[1].surface.as_str(), read[1].cost), ("漢字", 4000));
}

#[test]
fn phrases_are_what_should_be_recalled() {
    let phrases = [
        Phrase { reading: "にほんごにゅうりょく".to_owned(), surface: "日本語入力".to_owned() },
        Phrase { reading: "カンジヘンカン".to_owned(), surface: "漢字変換".to_owned() },
    ];
    let read = load_items_from_reader(&render_phrases(&phrases)).unwrap();
    assert_eq!(read.len(), 2);
    assert_eq!(read[0].reading, "にほんごにゅうりょく");
    assert_eq!(read[0].surface, "日本語入力");
    assert_eq!(read[1].reading, "かんじへんかん");
    assert_eq!(read[1].surface, "漢字変換");
}

#[test]
fn joined_columns_are_found_again() {
    let columns = vec!["a".to_owned(), String::new(), "b c".to_owned()];
    assert_eq!(columns_of(&columns.join("\t"), '\t'), columns);
}
