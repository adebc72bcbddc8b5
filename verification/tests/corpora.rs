//! Annotated corpora: transitions, private lines, and rules for contexts.

use slime::context_rules::{
    digest_of_line, grouped, judge_observations, load_exclusion_hashes, number_of_judgements,
    output_of_rules,
    select_rules, serialize_rules, standing, valid_context_surface, ContextObservations, Judgement,
    Observations, Selection, Thresholds,
};
use slime::corpus::{ignorable_line, parse_annotated_corpus_line};
use slime::corpus_bigram::{
    count_source, Conversion, CorpusBigramRanker, Segment, TransitionCounts, BOS,
};
use slime::order::TextSet;
use slime::private_corpus::{
    add_input_bytes, exceeds_bytes, hash_tokens, hex_text, normalize_phonetic_reading,
    parse_annotated_line, sha256_hex, valid_token_field, Token,
};

fn thresholds() -> Thresholds {
    Thresholds {
        minimum_count: 3,
        minimum_margin: 2,
        minimum_share_basis_points: 7_500,
        maximum_rules: 10_000,
    }
}

fn group(previous: &str, reading: &str, observations: &[(&str, u32)]) -> ContextObservations {
    ContextObservations {
        previous_surface: previous.to_owned(),
        reading: reading.to_owned(),
        surfaces: observations
            .iter()
            .map(|(surface, count)| (surface.to_string(), *count))
            .collect(),
    }
}

fn select(group: ContextObservations, candidates: &[&str]) -> Selection {
    let candidates = candidates.iter().map(|surface| surface.to_string()).collect();
    select_rules(&[group], &[candidates], thresholds()).unwrap()
}

const KANJI_CANDIDATES: [&str; 3] = ["感じ", "漢字", "幹事"];

#[test]
fn selects_only_a_reachable_non_top1_dominant_surface() {
    let selection = select(
        group("文章", "かんじ", &[("漢字", 5), ("感じ", 1)]),
        &KANJI_CANDIDATES,
    );
    assert_eq!(serialize_rules(&selection.rules), "文章\tかんじ\t漢字\t0\n");
    assert_eq!(selection.rules.len(), 1);
    assert_eq!(selection.eligible_rules, 1);
    assert_eq!(selection.truncated_rules, 0);
}

#[test]
fn rejects_ties_unreachable_surfaces_and_existing_top1() {
    let tied = select(
        group("文章", "かんじ", &[("漢字", 3), ("感じ", 3)]),
        &KANJI_CANDIDATES,
    );
    assert!(tied.rules.is_empty());
    assert_eq!(number_of_judgements(&tied.judgements, Judgement::Tied), 1);

    let unreachable = select(
        group("文章", "かんじ", &[("未収録表記", 5)]),
        &KANJI_CANDIDATES,
    );
    assert!(unreachable.rules.is_empty());
    assert_eq!(
        number_of_judgements(&unreachable.judgements, Judgement::UnreachableWinner),
        1
    );

    let top1 = select(group("文章", "かんじ", &[("感じ", 5)]), &KANJI_CANDIDATES);
    assert!(top1.rules.is_empty());
    assert_eq!(
        number_of_judgements(&top1.judgements, Judgement::AlreadyTop1),
        1
    );
}

#[test]
fn rejects_a_phonetic_winner_that_only_changes_script_preference() {
    let selection = select(
        group("ホームページが", "でき", &[("でき", 8)]),
        &["出来", "でき"],
    );
    assert!(selection.rules.is_empty());
    assert_eq!(
        number_of_judgements(&selection.judgements, Judgement::PhoneticWinner),
        1
    );
}

#[test]
fn weak_winners_are_rejected() {
    assert_eq!(
        judge_observations(&group("文章", "かんじ", &[("漢字", 2)]), thresholds()),
        Judgement::BelowMinimumCount
    );
    assert_eq!(
        judge_observations(
            &group("文章", "かんじ", &[("漢字", 4), ("感じ", 3)]),
            thresholds()
        ),
        Judgement::BelowMinimumMargin
    );
    assert_eq!(
        judge_observations(
            &group("文章", "かんじ", &[("漢字", 5), ("感じ", 3), ("幹事", 3)]),
            thresholds()
        ),
        Judgement::BelowMinimumShare
    );
    let found = standing(&[("漢字".to_owned(), 3), ("感じ".to_owned(), 1)]);
    assert_eq!(found.winner, 0);
    assert_eq!(found.count, 3);
    assert_eq!(found.margin, 2);
    assert_eq!(found.share_basis_points, 7_500);
    assert!(!found.tied);
}

#[test]
fn only_the_strongest_rules_are_kept() {
    let groups = [
        group("文章", "かんじ", &[("漢字", 5)]),
        group("会議", "かんじ", &[("幹事", 9)]),
    ];
    let candidates: Vec<String> = KANJI_CANDIDATES.iter().map(|text| text.to_string()).collect();
    let selection = select_rules(
        &groups,
        &[candidates.clone(), candidates],
        Thresholds {
            maximum_rules: 1,
            ..thresholds()
        },
    )
    .unwrap();
    assert_eq!(selection.eligible_rules, 2);
    assert_eq!(selection.truncated_rules, 1);
    assert_eq!(selection.rules[0].surface, "幹事");
}

#[test]
fn parser_errors_do_not_echo_private_content() {
    let private_value = "非公開顧客語";
    let error = parse_annotated_line(private_value, 7).unwrap_err();
    assert!(error.contains("line 7"));
    assert!(!error.contains(private_value));
}

#[test]
fn normalized_line_hash_is_stable_across_kana_forms() {
    let hiragana = vec![Token {
        surface: "語".to_owned(),
        reading: "ご".to_owned(),
    }];
    let katakana = vec![Token {
        surface: "語".to_owned(),
        reading: "ゴ".to_owned(),
    }];
    assert_eq!(hash_tokens(&hiragana), hash_tokens(&katakana));
}

#[test]
fn excludes_held_out_and_duplicate_lines_before_counting() {
    let training = "長文/ちょうぶん 文章/ぶんしょう 漢字/かんじ\n\
         長文/ちょうぶん 文章/ぶんしょう 漢字/かんじ\n\
         短文/たんぶん 文章/ぶんしょう 漢字/かんじ\n";
    let excluded_tokens =
        parse_annotated_line("短文/たんぶん 文章/ぶんしょう 漢字/かんじ", 1).unwrap();
    let mut exclusions = TextSet::new();
    exclusions.insert(&digest_of_line(&excluded_tokens));
    let mut observations = Observations::new();
    observations.observe(training, &exclusions).unwrap();
    assert_eq!(observations.accepted_lines, 1);
    assert_eq!(observations.duplicate_lines, 1);
    assert_eq!(observations.excluded_lines, 1);
    let groups = grouped(&observations.counts);
    let found = groups
        .iter()
        .find(|group| group.previous_surface == "文章" && group.reading == "かんじ")
        .unwrap();
    assert_eq!(found.surfaces, [("漢字".to_owned(), 1)]);
    assert!(observations.check_usable().is_ok());
    assert!(Observations::new().check_usable().is_err());
}

#[test]
fn held_out_lines_are_known_by_their_digests() {
    let mut digests = TextSet::new();
    load_exclusion_hashes("短文/たんぶん 文章/ぶんしょう\n", &mut digests).unwrap();
    let tokens = parse_annotated_line("短文/タンブン 文章/ブンショウ", 1).unwrap();
    assert!(digests.contains(&digest_of_line(&tokens)));
    assert_eq!(digests.len(), 1);
    assert!(load_exclusion_hashes("破損", &mut digests).is_err());
}

#[test]
fn parses_surface_reading_tokens_and_comments() {
    assert!(
        parse_annotated_corpus_line(";; comment")
            .unwrap()
            .is_empty()
    );
    assert_eq!(
        parse_annotated_corpus_line("夏/なつ は/は 暑い/あつい").unwrap(),
        [
            ("夏".to_owned(), "なつ".to_owned()),
            ("は".to_owned(), "は".to_owned()),
            ("暑い".to_owned(), "あつい".to_owned()),
        ]
    );
    assert!(parse_annotated_corpus_line("invalid").is_err());
    assert!(ignorable_line("  "));
    assert!(!ignorable_line("夏/なつ"));
}

#[test]
fn rewards_observed_word_and_skip_transitions() {
    let mut word = TransitionCounts::new();
    let mut skip = TransitionCounts::new();
    count_source("夏/なつ は/は 暑い/あつい\n", &mut word, &mut skip).unwrap();
    assert_eq!(word.count((BOS, ""), ("夏", "なつ")), 1);
    assert_eq!(skip.count(("夏", "なつ"), ("暑い", "あつい")), 1);

    let mut ranker = CorpusBigramRanker::new(word, 500, skip, 500);
    let observed = conversion("夏", "暑い");
    let unseen = conversion("板", "厚い");
    assert!(ranker.ranking_cost(&observed) < ranker.ranking_cost(&unseen));
    let diagnostics = ranker.diagnostics();
    assert_eq!(diagnostics.candidates_scored, 2);
    assert_eq!(diagnostics.word.unwrap().transitions_scored, 8);
    assert_eq!(diagnostics.skip.unwrap().transitions_scored, 2);
}

fn conversion(subject: &str, adjective: &str) -> Conversion {
    Conversion {
        surface: format!("{subject}は{adjective}"),
        segments: vec![
            Segment {
                reading: if subject == "夏" { "なつ" } else { "いた" }.to_owned(),
                surface: subject.to_owned(),
                cost: 1_000,
            },
            Segment {
                reading: "は".to_owned(),
                surface: "は".to_owned(),
                cost: 1_000,
            },
            Segment {
                reading: "あつい".to_owned(),
                surface: adjective.to_owned(),
                cost: 1_000,
            },
        ],
        cost: 3_000,
    }
}

#[test]
fn repeated_transitions_are_counted() {
    let mut counts = TransitionCounts::new();
    assert_eq!(counts.len(), 0);
    counts.increment(("夏", "なつ"), ("は", "は"));
    counts.increment(("夏", "なつ"), ("は", "は"));
    counts.increment(("板", "いた"), ("は", "は"));
    assert_eq!(counts.len(), 2);
    assert_eq!(counts.count(("夏", "なつ"), ("は", "は")), 2);
    assert_eq!(counts.count(("は", "は"), ("夏", "なつ")), 0);
    assert!(counts.holds(("板", "いた"), ("は", "は")));
    let mut skip = TransitionCounts::new();
    assert!(count_source("夏なつ\n", &mut counts, &mut skip).is_err());
}

#[test]
fn digests_are_those_of_sha256() {
    assert_eq!(
        sha256_hex(b"abc"),
        "ba7816bf8f01cfea414140de5dae2223b00361a396177a9cb410ff61f20015ad"
    );
    assert_eq!(hex_text(&[0, 15, 255]), "000fff");
}

#[test]
fn readings_are_normalized_or_refused() {
    assert_eq!(normalize_phonetic_reading("カンジ"), Some("かんじ".to_owned()));
    assert_eq!(normalize_phonetic_reading("漢字"), None);
    assert!(valid_token_field("漢字"));
    assert!(!valid_token_field("漢\u{7}字"));
    assert!(valid_context_surface("文章"));
    assert!(exceeds_bytes("漢字", 5));
    assert!(!exceeds_bytes("漢字", 6));
}

#[test]
fn inputs_have_a_byte_limit() {
    assert_eq!(add_input_bytes(1, 2), Ok(3));
    assert_eq!(
        add_input_bytes(u64::MAX, 1).unwrap_err(),
        "input byte total overflowed"
    );
    assert_eq!(
        add_input_bytes(268_435_456, 1).unwrap_err(),
        "inputs exceed the 268435456 byte limit"
    );
}

#[test]
fn sets_of_texts_hold_each_text_once() {
    let mut set = TextSet::new();
    assert!(set.insert("b"));
    assert!(set.insert("a"));
    assert!(!set.insert("b"));
    assert!(set.contains("a"));
    assert!(!set.contains("c"));
    assert_eq!(set.len(), 2);
    assert_eq!(set.listed(), ["a", "b"]);
}

#[test]
fn lines_before_one_in_error_count() {
    let mut digests = TextSet::new();
    let source = "短文/たんぶん\n文章/ぶんしょう\n破損\n漢字/かんじ\n";
    assert!(load_exclusion_hashes(source, &mut digests).is_err());
    assert_eq!(digests.len(), 2);
    let (mut word, mut skip) = (TransitionCounts::new(), TransitionCounts::new());
    let source = "夏/なつ は/は 暑い/あつい\n破損\n冬/ふゆ は/は\n";
    assert!(count_source(source, &mut word, &mut skip).is_err());
    let (mut first, mut second) = (TransitionCounts::new(), TransitionCounts::new());
    count_source("夏/なつ は/は 暑い/あつい\n", &mut first, &mut second).unwrap();
    assert_eq!(word.len(), first.len());
    assert_eq!(skip.len(), second.len());
}

#[test]
fn kept_rules_ascend_and_judgements_add_up() {
    let groups = [
        group("文章", "かんじ", &[("漢字", 5)]),
        group("良い", "かんじ", &[("幹事", 4)]),
        group("短文", "あい", &[("愛", 1)]),
    ];
    let found = vec!["感じ".to_owned(), "漢字".to_owned(), "幹事".to_owned()];
    let candidates = vec![found.clone(), found, Vec::new()];
    let selection = select_rules(&groups, &candidates, thresholds()).unwrap();
    let contexts: Vec<&str> =
        selection.rules.iter().map(|rule| rule.previous_surface.as_str()).collect();
    assert_eq!(contexts, ["文章", "良い"]);
    let number = |kind| number_of_judgements(&selection.judgements, kind);
    assert_eq!(number(Judgement::Eligible), selection.eligible_rules);
    assert_eq!(number(Judgement::BelowMinimumCount), 1);
    assert_eq!(selection.judgements.len(), groups.len());
}

#[test]
fn grouped_contexts_ascend() {
    let mut counts = TransitionCounts::new();
    for (previous, surface) in [("b", "x"), ("a", "y"), ("b", "w"), ("a", "x")] {
        counts.increment((previous, "よみ"), (surface, ""));
    }
    let groups = grouped(&counts);
    let contexts: Vec<&str> =
        groups.iter().map(|group| group.previous_surface.as_str()).collect();
    assert_eq!(contexts, ["a", "b"]);
    assert_eq!(groups[1].surfaces, [("w".to_owned(), 1), ("x".to_owned(), 1)]);
}

#[test]
fn rules_are_written_only_if_there_are_any() {
    assert_eq!(
        output_of_rules(&[]).unwrap_err(),
        "training inputs produced no eligible context rules"
    );
    let selection = select(
        group("文章", "かんじ", &[("漢字", 5), ("感じ", 1)]),
        &KANJI_CANDIDATES,
    );
    assert_eq!(output_of_rules(&selection.rules).unwrap(), "文章\tかんじ\t漢字\t0\n");
}
