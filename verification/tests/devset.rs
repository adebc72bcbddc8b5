//! Development sets from corrected texts.

use slime::devset::{
    accept_items, annotated_corpus, build_item, diff_span, is_clause_boundary, partition_items,
    sample_evenly, window_end, window_start, write_tokens, DevItem, TrainDiff, TrainPair,
};
use slime::kana::hiragana_to_katakana;
use slime::surface_annotation::{dictionary_rows, SurfaceReadingIndex};

#[test]
fn diff_span_finds_the_changed_region() {
    let pre: Vec<char> = "固体発生の議論".chars().collect();
    let post: Vec<char> = "個体発生の議論".chars().collect();
    assert_eq!(diff_span(&pre, &post), Some((0, 1)));

    let pre: Vec<char> = "ああいう".chars().collect();
    let post: Vec<char> = "ああそういう".chars().collect();
    assert_eq!(diff_span(&pre, &post), Some((2, 4)));
}

#[test]
fn partitions_items_by_stable_source_line_number() {
    let items: Vec<_> = (0..10)
        .map(|index| DevItem {
            source_split: "test".to_owned(),
            index: index.to_string(),
            context_text: String::new(),
            input: String::new(),
            expected_output: vec![String::new()],
            original_text: String::new(),
            annotated_tokens: Vec::new(),
        })
        .collect();
    let selected = partition_items(items, 3, Some(1), None);
    assert_eq!(
        selected
            .iter()
            .map(|item| item.index.as_str())
            .collect::<Vec<_>>(),
        ["1", "4", "7"]
    );
}

#[test]
fn excludes_a_stable_partition_for_training() {
    let items: Vec<_> = (0..10)
        .map(|index| DevItem {
            source_split: "test".to_owned(),
            index: index.to_string(),
            context_text: String::new(),
            input: String::new(),
            expected_output: vec![String::new()],
            original_text: String::new(),
            annotated_tokens: Vec::new(),
        })
        .collect();
    let selected = partition_items(items, 3, None, Some(1));
    assert_eq!(
        selected
            .iter()
            .map(|item| item.index.as_str())
            .collect::<Vec<_>>(),
        ["0", "2", "3", "5", "6", "8", "9"]
    );
}

#[test]
fn annotated_tokens_preserve_the_derived_reading() {
    let readings = SurfaceReadingIndex::from_pairs(vec![
        ("漢字".to_owned(), "かんじ".to_owned()),
        ("変換".to_owned(), "へんかん".to_owned()),
    ]);
    let tokens = readings.annotate("漢字への変換").unwrap();
    assert_eq!(
        tokens,
        [
            ("漢字".to_owned(), "かんじ".to_owned()),
            ("へ".to_owned(), "へ".to_owned()),
            ("の".to_owned(), "の".to_owned()),
            ("変換".to_owned(), "へんかん".to_owned()),
        ]
    );
}

#[test]
fn readings_are_emitted_as_katakana() {
    assert_eq!(hiragana_to_katakana("かけい、ゔ"), "カケイ、ヴ");
}

fn readings() -> SurfaceReadingIndex {
    SurfaceReadingIndex::from_pairs(vec![
        ("個体".to_owned(), "こたい".to_owned()),
        ("固体".to_owned(), "こたい".to_owned()),
        ("発生".to_owned(), "はっせい".to_owned()),
        ("議論".to_owned(), "ぎろん".to_owned()),
        ("議".to_owned(), "ぎ".to_owned()),
        ("上手".to_owned(), "じょうず".to_owned()),
        ("上手".to_owned(), "うわて".to_owned()),
    ])
}

fn pair(pre: &str, post: &str, pre_str: &str, post_str: &str) -> TrainPair {
    TrainPair {
        pre_text: pre.to_owned(),
        post_text: post.to_owned(),
        diffs: vec![TrainDiff {
            pre_str: pre_str.to_owned(),
            post_str: post_str.to_owned(),
            category: "kanji-conversion_a".to_owned(),
        }],
    }
}

fn letters(text: &str) -> Vec<char> {
    text.chars().collect()
}

#[test]
fn ambiguous_and_unknown_kanji_have_no_reading() {
    let readings = readings();
    assert_eq!(readings.reading("議論の発生"), Some("ぎろんのはっせい".to_owned()));
    assert_eq!(readings.reading("上手な議論"), None);
    assert_eq!(readings.reading("未知"), None);
    assert_eq!(readings.reading("カナ"), Some("かな".to_owned()));
    assert_eq!(readings.len(), 5);
}

#[test]
fn dictionary_tables_hold_readings_first() {
    assert_eq!(
        dictionary_rows("かんじ\t漢字\t1\nよみだけ\nへんかん\t変換\n"),
        [
            ("かんじ".to_owned(), "漢字".to_owned()),
            ("へんかん".to_owned(), "変換".to_owned())
        ]
    );
}

#[test]
fn a_corrected_text_makes_an_item() {
    let readings = readings();
    let text = pair(
        "前文。固体発生の議論、続き",
        "前文。個体発生の議論、続き",
        "固体",
        "個体",
    );
    let item = build_item(&text, 7, 1, &readings).unwrap();
    assert_eq!(item.source_split, "jwtd-v2-train");
    assert_eq!(item.index, "7");
    assert_eq!(item.context_text, "");
    assert_eq!(item.input, "コタイハッセイノギロン");
    assert_eq!(item.expected_output, ["個体発生の議論"]);
    assert_eq!(item.original_text, "前文。個体発生の議論、続き");
    assert_eq!(item.annotated_tokens[0], ("個体".to_owned(), "こたい".to_owned()));
    let mut other = pair("固体発生の議論", "個体発生の議論", "固体", "個体");
    other.diffs[0].category = "deletion".to_owned();
    assert!(build_item(&other, 7, 1, &readings).is_none());
}

#[test]
fn different_readings_reject_the_item() {
    let readings = readings();
    let text = pair("議論発生の議論", "個体発生の議論", "議論", "個体");
    assert!(build_item(&text, 0, 0, &readings).is_none());
}

#[test]
fn windows_are_accepted_once() {
    let row = || Some(pair("固体発生の議論", "個体発生の議論", "固体", "個体"));
    let items = accept_items(&[row(), None, row()], &readings());
    assert_eq!(items.len(), 1);
    assert_eq!(items[0].index, "0");
    assert_eq!(
        annotated_corpus(&items),
        "個体/こたい 発生/はっせい の/の 議論/ぎろん\n"
    );
}

#[test]
fn windows_end_at_clauses() {
    let text = letters("一、二、三四五、六");
    assert!(is_clause_boundary('、'));
    assert!(!is_clause_boundary('一'));
    assert_eq!(window_start(&text, 5, 0), 2);
    assert_eq!(window_end(&text, 5), 7);
    assert_eq!(window_start(&text, 5, 4), 4);
}

#[test]
fn texts_without_a_difference_have_no_span() {
    assert_eq!(diff_span(&letters("同じ"), &letters("同じ")), None);
    assert_eq!(diff_span(&letters("余分な字"), &letters("余分字")), None);
}

#[test]
fn few_items_are_all_kept() {
    let row = |text: &str| {
        Some(pair(
            &format!("固体発生の議論{text}"),
            &format!("個体発生の議論{text}"),
            "固体",
            "個体",
        ))
    };
    let items = accept_items(&[row("あ"), row("い"), row("う")], &readings());
    assert_eq!(items.len(), 3);
    let sampled = sample_evenly(items, 2);
    assert_eq!(sampled.len(), 2);
    assert_eq!(sampled[0].index, "0");
    assert_eq!(sampled[1].index, "1");
    assert_eq!(sample_evenly(sampled, 9).len(), 2);
}

#[test]
fn tokens_are_written_with_spaces() {
    let mut line = String::from("> ");
    write_tokens(
        &mut line,
        &[
            ("漢字".to_owned(), "かんじ".to_owned()),
            ("の".to_owned(), "の".to_owned()),
        ],
    );
    assert_eq!(line, "> 漢字/かんじ の/の");
}
