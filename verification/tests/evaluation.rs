//! Reading, selecting and scoring evaluation items.

use slime::arguments::NumberBits;
use slime::candidate::{
    base_cost_gap, neural_candidate_cost_gap, neural_candidate_limit, neural_candidate_prefix_len,
    rescored_surfaces, should_score_neurally, Candidate,
};
use slime::evaluation::{
    character_error_rate, check_expected, katakana_to_hiragana, load_annotated_items,
    load_anthy_items, minimum_cer, normalize_for_evaluation, parse_anthy_line, score_item,
    select_items, AjimeeItem, ErrorRate,
};
use slime::evaluation_options::{
    ContextFilter, DatasetEnvironment, DatasetFormat, NeuralScoreMode, Options,
};
use slime::report::{
    compute_report, label_index, neural_plan, neural_sweep, ranking_mode, scored_counts,
    fresh_items, select_training, ItemOutcome, NeuralLimits, RankingMode, ReportContext,
};
use slime::sampling::{latency_report, nearest_rank_index, rounded_up_percentile_index, spread_over};

fn assert_close(actual: f64, expected: f64) {
    assert!((actual - expected).abs() < f64::EPSILON);
}

fn rate(value: ErrorRate) -> f64 {
    if value.characters == 0 {
        if value.edits == 0 {
            0.0
        } else {
            1.0
        }
    } else {
        value.edits as f64 / value.characters as f64
    }
}

fn bits(argument: &str) -> NumberBits {
    NumberBits {
        double: argument.parse::<f64>().ok().map(f64::to_bits),
        single: argument.parse::<f32>().ok().map(f32::to_bits),
    }
}

fn environment() -> DatasetEnvironment {
    DatasetEnvironment {
        ajimee_revision: None,
        ajimee_sha256: None,
        anthy_revision: None,
        anthy_sha256: None,
    }
}

fn parse(arguments: &[&str]) -> Result<Options, String> {
    let arguments: Vec<String> = arguments.iter().map(|argument| argument.to_string()).collect();
    let numbers: Vec<NumberBits> = arguments.iter().map(|argument| bits(argument)).collect();
    Options::parse(&arguments, &numbers, &environment())
}

fn candidate(surface: &str, cost: i32) -> Candidate {
    Candidate {
        surface: surface.to_owned(),
        cost,
    }
}

/// A number that orders as the score does.
fn order_key(score: f64) -> i64 {
    let bits = score.to_bits() as i64;
    bits ^ (((bits >> 63) as u64) >> 1) as i64
}

fn rescore(candidates: &[Candidate], logliks: &[f64], lambda: f64, margin: f64) -> Vec<String> {
    let combined: Vec<f64> = candidates
        .iter()
        .zip(logliks)
        .map(|(candidate, loglik)| {
            (1.0 - lambda) * (-f64::from(candidate.cost) / 500.0) + lambda * loglik
        })
        .collect();
    let scores: Vec<i64> = combined.iter().map(|score| order_key(*score)).collect();
    let leads: Vec<bool> = combined
        .iter()
        .map(|score| !(score - combined[0] < margin))
        .collect();
    rescored_surfaces(candidates, &scores, &leads)
}

fn item(index: &str, context: &str, expected: &str) -> AjimeeItem {
    AjimeeItem {
        source_split: Some("test".to_owned()),
        index: index.to_owned(),
        context_text: context.to_owned(),
        right_context_text: String::new(),
        input: "ヨミ".to_owned(),
        expected_output: vec![expected.to_owned()],
    }
}

fn outcome(index: &str, candidates: &[(&str, i32)]) -> ItemOutcome {
    ItemOutcome {
        item: item(index, "", "正解"),
        candidates: candidates
            .iter()
            .map(|(surface, cost)| candidate(surface, *cost))
            .collect(),
        latency: 1_000,
    }
}

#[test]
fn converts_full_width_katakana_without_changing_punctuation() {
    assert_eq!(
        katakana_to_hiragana("ニホンゴ、ヴァイオリン・１２３"),
        "にほんご、ゔぁいおりん・１２３"
    );
}

#[test]
fn character_error_rate_uses_unicode_characters() {
    assert_close(rate(character_error_rate("日本語", "日本")), 1.0 / 3.0);
    assert_close(rate(character_error_rate("日本語", "日本後")), 1.0 / 3.0);
    assert_close(rate(character_error_rate("日本語", "日本語")), 0.0);
}

#[test]
fn percentile_uses_nearest_rank() {
    let values: Vec<u64> = (1..=100).collect();
    let percentile = |percent: usize| {
        values[nearest_rank_index(values.len(), percent)] as f64 / 1_000_000.0
    };
    assert_close(percentile(50), 50.0 / 1_000_000.0);
    assert_close(percentile(95), 95.0 / 1_000_000.0);
    assert_close(percentile(99), 99.0 / 1_000_000.0);
}

#[test]
fn parses_reproducible_evaluation_options() {
    let options = parse(
        &[
            "ajimee",
            "--input",
            "items.json",
            "--dataset-name",
            "custom",
            "--dataset-revision",
            "revision",
            "--dataset-sha256",
            "digest",
            "--top-k",
            "5",
            "--search-k",
            "20",
            "--context",
            "none",
            "--limit",
            "25",
            "--failures",
            "0",
            "--json",
            "--neural-model",
            "model.gguf",
            "--neural-max-cost-gap",
            "750",
            "--neural-max-candidates",
            "5",
            "--neural-long-input-min-characters",
            "9",
            "--neural-long-input-max-candidates",
            "8",
            "--neural-max-candidate-cost-gap",
            "900",
            "--neural-long-input-max-candidate-cost-gap",
            "2500",
            "--neural-min-margin",
            "0.25",
            "--neural-score-mode",
            "without-eos",
            "--export-nbest",
            "nbest.json",
            "--word-bigram-corpus",
            "annotated.txt",
            "--word-bigram-weight",
            "500",
            "--skip-bigram-weight",
            "250",
            "--context-bigram-weight",
            "125",
            "--corpus-bigram-min-count",
            "3",
        ],
    )
    .unwrap();

    assert_eq!(options.top_k, 5);
    assert_eq!(options.search_k, Some(20));
    assert_eq!(options.format, DatasetFormat::Ajimee);
    assert_eq!(options.inputs, ["items.json"]);
    assert_eq!(options.dataset_name.as_deref(), Some("custom"));
    assert_eq!(options.dataset_revision.as_deref(), Some("revision"));
    assert_eq!(options.dataset_sha256.as_deref(), Some("digest"));
    assert_eq!(options.context, ContextFilter::Absent);
    assert_eq!(options.neural_min_margins, [0.25_f64.to_bits()]);
    assert_eq!(options.neural_score_modes, [NeuralScoreMode::Candidate]);
    assert_eq!(options.limit, Some(25));
    assert_eq!(options.failures, 0);
    assert!(options.json);
    assert_eq!(options.neural_max_cost_gap, Some(750));
    assert_eq!(options.neural_max_candidates, Some(5));
    assert_eq!(options.neural_long_input_min_characters, Some(9));
    assert_eq!(options.neural_long_input_max_candidates, Some(8));
    assert_eq!(options.neural_max_candidate_cost_gap, Some(900));
    assert_eq!(
        options.neural_long_input_max_candidate_cost_gap,
        Some(2_500)
    );
    assert_eq!(
        options.export_nbest,
        Some("nbest.json".to_owned())
    );
    assert_eq!(
        options.word_bigram_corpora,
        ["annotated.txt"]
    );
    assert_eq!(options.word_bigram_weight, 500);
    assert_eq!(options.skip_bigram_weight, 250);
    assert_eq!(options.context_bigram_weight, 125);
    assert_eq!(options.corpus_bigram_min_count, 3);
}

#[test]
fn neural_cost_gap_gate_skips_confident_or_single_candidate_items() {
    let candidates = vec![
        Candidate {
            surface: "第一".to_owned(),
            cost: 1_000,
        },
        Candidate {
            surface: "第二".to_owned(),
            cost: 1_600,
        },
        Candidate {
            surface: "第三".to_owned(),
            cost: 2_000,
        },
    ];
    assert_eq!(base_cost_gap(&candidates), Some(600));
    assert!(should_score_neurally(&candidates, None));
    assert!(should_score_neurally(&candidates, Some(600)));
    assert!(!should_score_neurally(&candidates, Some(599)));
    assert!(!should_score_neurally(&candidates[..1], Some(1_000)));
}

#[test]
fn neural_candidate_cost_gap_bounds_the_scored_prefix() {
    let candidates = vec![
        Candidate {
            surface: "第一".to_owned(),
            cost: 1_000,
        },
        Candidate {
            surface: "第二".to_owned(),
            cost: 1_250,
        },
        Candidate {
            surface: "第三".to_owned(),
            cost: 1_800,
        },
        Candidate {
            surface: "第四".to_owned(),
            cost: 1_900,
        },
    ];
    assert_eq!(neural_candidate_prefix_len(&candidates, Some(3), None), 3);
    assert_eq!(
        neural_candidate_prefix_len(&candidates, Some(4), Some(800)),
        3
    );
    assert_eq!(
        neural_candidate_prefix_len(&candidates, Some(4), Some(249)),
        1
    );
}

#[test]
fn neural_candidate_cost_gap_expands_only_for_long_inputs() {
    assert_eq!(
        neural_candidate_cost_gap("ショウブン", Some(1_500), Some(9), Some(2_500)),
        Some(1_500)
    );
    assert_eq!(
        neural_candidate_cost_gap("チョウブンショウニ", Some(1_500), Some(9), Some(2_500)),
        Some(2_500)
    );
}

#[test]
fn neural_candidate_limit_expands_only_long_inputs() {
    assert_eq!(
        neural_candidate_limit("カイ", Some(5), Some(9), Some(8)),
        Some(5)
    );
    assert_eq!(
        neural_candidate_limit("チョウブンショウニ", Some(5), Some(9), Some(8)),
        Some(8)
    );
    assert_eq!(
        neural_candidate_limit("ニホン", Some(5), None, None),
        Some(5)
    );
}

#[test]
fn neural_rescoring_reorders_only_the_scored_prefix() {
    let candidates = vec![
        Candidate {
            surface: "第一".to_owned(),
            cost: 1_000,
        },
        Candidate {
            surface: "第二".to_owned(),
            cost: 1_100,
        },
        Candidate {
            surface: "第三".to_owned(),
            cost: 1_200,
        },
        Candidate {
            surface: "第四".to_owned(),
            cost: 1_300,
        },
    ];
    let surfaces = rescore(&candidates, &[-10.0, -1.0], 0.8, 0.0);
    assert_eq!(surfaces, ["第二", "第一", "第三", "第四"]);
    assert_eq!(
        rescore(&candidates, &[], 0.8, 0.0),
        ["第一", "第二", "第三", "第四"]
    );
}

#[test]
fn neural_rescoring_requires_the_configured_top_candidate_margin() {
    let candidates = vec![
        Candidate {
            surface: "第一".to_owned(),
            cost: 1_000,
        },
        Candidate {
            surface: "第二".to_owned(),
            cost: 1_100,
        },
    ];
    let logliks = [-2.0, -1.0];

    assert_eq!(
        rescore(&candidates, &logliks, 0.8, 0.5),
        ["第二", "第一"]
    );
    assert_eq!(
        rescore(&candidates, &logliks, 0.8, 1.0),
        ["第一", "第二"]
    );
}

#[test]
fn keeps_the_original_positional_ajimee_input() {
    let options = parse(&["ajimee", "items.json"]).unwrap();

    assert_eq!(options.inputs, ["items.json"]);
}

#[test]
fn parses_anthy_segments_without_losing_literal_text() {
    assert_eq!(
        parse_anthy_line("|uim-fepの|あたらしい|ばーじょん| |uim-fepの|新しい|バージョン|")
            .unwrap(),
        (
            "uim-fepのあたらしいばーじょん".to_owned(),
            "uim-fepの新しいバージョン".to_owned()
        )
    );
}

#[test]
fn loads_annotated_sentences_as_evaluation_items() {
    let items =
        load_annotated_items("corpus.txt", ";; comment\n夏/なつ は/は 暑い/あつい\n").unwrap();
    assert_eq!(items.len(), 1);
    assert_eq!(items[0].input, "なつはあつい");
    assert_eq!(items[0].expected_output, ["夏は暑い"]);
}

#[test]
fn anthy_scoring_normalizes_full_width_digits() {
    assert_eq!(
        normalize_for_evaluation("今日は２０２６年", DatasetFormat::Anthy),
        "今日は2026年"
    );
    assert_eq!(
        normalize_for_evaluation("今日は２０２６年", DatasetFormat::Ajimee),
        "今日は２０２６年"
    );
}

#[test]
fn anthy_items_are_loaded_in_order() {
    let items = load_anthy_items("corpus.txt", "|よみ| |読み|\n|かな| |仮名|\n").unwrap();
    assert_eq!(items.len(), 2);
    assert_eq!(items[1].input, "かな");
    assert_eq!(items[1].expected_output, ["仮名"]);
    assert!(load_anthy_items("corpus.txt", "|よみ|\n").is_err());
    assert!(parse_anthy_line("").is_err());
}

#[test]
fn malformed_annotated_lines_are_refused() {
    assert!(load_annotated_items("corpus.txt", "夏なつ\n").is_err());
}

#[test]
fn unknown_options_are_refused() {
    assert!(parse(&["ajimee", "--input", "a.json", "--unknown"]).is_err());
    assert!(parse(&["other"]).is_err());
    assert!(parse(&[]).is_err());
    assert!(parse(&["ajimee"]).is_err());
    assert!(parse(&["ajimee", "--input", "a.json", "--top-k", "0"]).is_err());
    assert!(parse(&["ajimee", "--input", "a.json", "--neural-min-margin", "nan"]).is_err());
    assert!(parse(&["ajimee", "--input", "a.json", "--context", "some"]).is_err());
}

#[test]
fn score_modes_have_names() {
    for mode in [
        NeuralScoreMode::Total,
        NeuralScoreMode::Candidate,
        NeuralScoreMode::MeanTotal,
        NeuralScoreMode::MeanCandidate,
    ] {
        assert_eq!(NeuralScoreMode::parse(mode.as_str()), Ok(mode));
    }
    assert_eq!(NeuralScoreMode::parse("without-eos"), Ok(NeuralScoreMode::Candidate));
    assert!(NeuralScoreMode::parse("median").is_err());
}

#[test]
fn items_are_selected_by_context_and_number() {
    let items = [item("1", "", "a"), item("2", "前", "b"), item("3", "後", "c")];
    assert_eq!(select_items(&items, ContextFilter::All, None), Ok(vec![0, 1, 2]));
    assert_eq!(select_items(&items, ContextFilter::Present, Some(1)), Ok(vec![1]));
    assert_eq!(select_items(&items, ContextFilter::Absent, None), Ok(vec![0]));
    assert_eq!(
        select_items(&items[..1], ContextFilter::Present, None).unwrap_err(),
        "no evaluation items matched the selected filters"
    );
}

#[test]
fn items_need_an_expected_output() {
    let mut items = [item("1", "", "a"), item("2", "", "b")];
    assert!(check_expected(&items).is_ok());
    items[1].expected_output.clear();
    assert_eq!(
        check_expected(&items).unwrap_err(),
        "item 2 has no expected output"
    );
}

#[test]
fn the_best_reference_counts() {
    let references = ["漢字".to_owned(), "感じ".to_owned()];
    assert_close(rate(minimum_cer(&references, "感じ")), 0.0);
    assert_close(rate(minimum_cer(&references, "漢じ")), 0.5);
}

#[test]
fn a_right_candidate_has_its_rank_and_no_errors() {
    let candidates = ["誤り".to_owned(), "正解".to_owned()];
    let score = score_item(&candidates, &["正解".to_owned()], DatasetFormat::Ajimee);
    assert_eq!(score.rank, Some(1));
    assert_close(rate(score.error_at_k), 0.0);
    assert_close(rate(score.error_at_1), 1.0);
}

#[test]
fn only_uncertain_items_are_scored() {
    let outcomes = [
        outcome("1", &[("正解", 100), ("別解", 200)]),
        outcome("2", &[("正解", 100), ("別解", 9_000)]),
        outcome("3", &[("別解", 100), ("正解", 300), ("誤り", 5_000)]),
    ];
    let limits = NeuralLimits {
        max_cost_gap: Some(500),
        max_candidates: Some(5),
        long_input_min_characters: None,
        long_input_max_candidates: None,
        max_candidate_cost_gap: Some(1_000),
        long_input_max_candidate_cost_gap: None,
    };
    let counts = scored_counts(&outcomes, limits);
    assert_eq!(counts, [2, 0, 2]);
    let plan = neural_plan(&outcomes, &counts);
    assert_eq!(plan.slots, [Some(0), None, Some(1)]);
    assert_eq!(plan.requests.len(), 2);
    assert_eq!(plan.requests[1].candidates, ["別解", "正解"]);
    assert_eq!(plan.scored_items, 2);
    assert_eq!(plan.scored_candidates, 4);
}

#[test]
fn a_report_counts_what_is_right() {
    let options = parse(&["ajimee", "items.json", "--top-k", "2"]).unwrap();
    let outcomes = [
        outcome("1", &[("正解", 100), ("別解", 200)]),
        outcome("2", &[("別解", 100), ("正解", 300)]),
        outcome("3", &[("別解", 100), ("誤り", 300)]),
    ];
    let ranked: Vec<Vec<String>> = outcomes
        .iter()
        .map(|outcome| {
            outcome
                .candidates
                .iter()
                .map(|candidate| candidate.surface.clone())
                .collect()
        })
        .collect();
    let report = compute_report(
        &outcomes,
        &ranked,
        &[0, 500, 0],
        &options,
        ReportContext {
            diagnostics: None,
            context: None,
            neural_items: None,
            discriminative: false,
        },
    );
    assert_eq!(report.items, 3);
    assert_eq!(report.correct_at_1, 1);
    assert_eq!(report.correct_at_k, 2);
    assert_eq!(report.scores[1].rank, Some(1));
    assert_eq!(report.latencies, [1_000, 1_500, 1_000]);
    assert_eq!(ranking_mode(&options), RankingMode::Baseline);
    assert_eq!(
        label_index(&outcomes[1].candidates, &["正解".to_owned()]),
        Some(1)
    );
}

#[test]
fn every_combination_is_swept() {
    let points = neural_sweep(
        &[1, 2],
        &[NeuralScoreMode::Total, NeuralScoreMode::Candidate],
        &[7],
    );
    assert_eq!(points.len(), 4);
    assert_eq!(points[0].lambda, 1);
    assert_eq!(points[3].lambda, 2);
    assert_eq!(points[3].margin, 7);
}

#[test]
fn training_leaves_out_what_is_evaluated() {
    let training = [item("1", "", "a"), item("2", "", "b"), item("3", "", "c")];
    let evaluated = [outcome("2", &[])];
    assert_eq!(select_training(&training, &evaluated, 5), Ok(vec![0, 2]));
    assert_eq!(select_training(&training, &evaluated, 1), Ok(vec![0]));
    assert_eq!(
        select_training(&training[1..2], &evaluated, 5).unwrap_err(),
        "no non-overlapping discriminative training items remain"
    );
}

#[test]
fn samples_and_percentiles_are_exact() {
    assert_eq!(spread_over(10, 3), [0, 3, 6]);
    assert_eq!(spread_over(3, 10), [0, 1, 2]);
    assert_eq!(rounded_up_percentile_index(4, 50), 2);
    let report = latency_report(vec![30, 10, 20]);
    assert_eq!(report.p50, 20);
    assert_eq!(report.max, 30);
}

#[test]
fn more_candidates_never_have_more_errors() {
    let candidates = ["間違い".to_owned(), "正しい".to_owned(), String::new()];
    let expected = ["正解".to_owned(), String::new()];
    let score = score_item(&candidates, &expected, DatasetFormat::Ajimee);
    assert_eq!(score.rank, Some(2));
    assert_eq!(score.error_at_1.edits, 3);
    assert_eq!(score.error_at_1.characters, 2);
    assert_eq!(score.error_at_k.edits, 0);
}

#[test]
fn items_that_are_not_evaluated_are_fresh() {
    let item = |index: &str| AjimeeItem {
        source_split: None,
        index: index.to_owned(),
        context_text: String::new(),
        right_context_text: String::new(),
        input: "カナ".to_owned(),
        expected_output: vec!["仮名".to_owned()],
    };
    let evaluated = [ItemOutcome { item: item("b"), candidates: Vec::new(), latency: 0 }];
    assert_eq!(fresh_items(&[item("a"), item("b"), item("c")], &evaluated), [0, 2]);
    assert_eq!(NeuralLimits::unlimited().max_candidates, None);
}
