//! Recall of expected surfaces.

use slime::arguments::NumberBits;
use slime::recall::{
    add_dictionary_bytes, classify, count_stage, detailed_results, enforce_thresholds,
    evaluate_item, is_unrecalled, report_on, searches, RecallReport, RecallStage, Searched,
};
use slime::recall_options::RecallOptions;
use slime::tables::{
    add_dictionary_entries, load_dictionary_entries, load_items_from_reader,
    parse_dictionary_entries, RecallItem,
};

fn texts(values: &[&str]) -> Vec<String> {
    values.iter().map(|value| value.to_string()).collect()
}

fn item(reading: &str, surface: &str) -> RecallItem {
    RecallItem {
        reading: reading.to_owned(),
        surface: surface.to_owned(),
    }
}

fn found(initial: &[&str]) -> Searched {
    Searched {
        initial: texts(initial),
        expanded: Vec::new(),
        compound: Vec::new(),
        fixed_segment: Vec::new(),
        known_components: false,
        initial_latency: 10,
    }
}

fn evaluate(searches: &[(RecallItem, Searched)]) -> RecallReport {
    report_on(
        searches
            .iter()
            .map(|(item, found)| evaluate_item(item, found))
            .collect(),
    )
}

fn options(arguments: &[&str]) -> Result<RecallOptions, String> {
    let arguments = texts(arguments);
    let numbers: Vec<NumberBits> = arguments
        .iter()
        .map(|argument| NumberBits {
            double: argument.parse::<f64>().ok().map(f64::to_bits),
            single: argument.parse::<f32>().ok().map(f32::to_bits),
        })
        .collect();
    RecallOptions::parse(&arguments, &numbers)
}

#[test]
fn parser_normalizes_readings_and_rejects_duplicates() {
    let items = load_items_from_reader("ニホン\t日本\n").unwrap();
    assert_eq!(items[0].reading, "にほん");
    assert_eq!(items[0].surface, "日本");

    let duplicate = load_items_from_reader("にほん\t日本\nニホン\t日本\n");
    let error = duplicate.unwrap_err();
    assert!(error.contains("duplicates"));
    assert!(!error.contains("にほん"));
    assert!(!error.contains("日本"));
}

#[test]
fn external_dictionary_parser_accepts_optional_costs() {
    let entries =
        load_dictionary_entries("# fixture\nニホン\t日本\nあさいり\t浅煎り\t700\n").unwrap();
    assert!(entries.iter().any(|entry| entry.reading == "にほん"));
    assert!(entries
        .iter()
        .any(|entry| entry.reading == "あさいり" && entry.surface == "浅煎り" && entry.cost == 700));

    let private_value = "顧客専用語";
    let invalid =
        load_dictionary_entries(&format!("ひみつ\t{private_value}\t{private_value}\n")).unwrap_err();
    assert!(invalid.contains("invalid cost"));
    assert!(!invalid.contains(private_value));
}

#[test]
fn classification_keeps_stages_distinct() {
    let right = texts(&["正解"]);
    let other = texts(&["別候補"]);
    assert_eq!(
        classify("正解", &right, &[], &[], &[]),
        RecallStage::Initial
    );
    assert_eq!(
        classify("正解", &other, &right, &[], &[]),
        RecallStage::Expanded
    );
    assert_eq!(
        classify("正解", &other, &other, &right, &[]),
        RecallStage::Compound
    );
    assert_eq!(
        classify("正解", &other, &other, &other, &right),
        RecallStage::FixedSegment
    );
    assert_eq!(
        classify("正解", &other, &other, &other, &other),
        RecallStage::Missing
    );
}

#[test]
fn evaluator_distinguishes_unrecalled_known_components() {
    let unrecalled = Searched {
        known_components: true,
        ..found(&["左0右0"])
    };
    let report = evaluate(&[(item("あいうえ", "左5右5"), unrecalled)]);

    assert_eq!(report.known_components, 1);
    assert_eq!(report.unknown_components, 0);
    assert_eq!(report.missing, 1);
    assert_eq!(report.results[0].stage, RecallStage::KnownComponents);

    let recovered =
        evaluate(&[(item("あいうえ", "左5右5"), found(&["左5右5"]))]).with_dictionary_baseline(&report);
    assert_eq!(recovered.missing, 0);
    assert_eq!(recovered.baseline_missing, 1);
    assert_eq!(recovered.dictionary_recovered, 1);
    assert_eq!(recovered.dictionary_regressed, 0);
}

#[test]
fn evaluator_counts_initial_and_missing_candidates() {
    let report = evaluate(&[
        (item("あい", "第一"), found(&["第一"])),
        (item("あいうえ", "第一第二"), found(&["第一第二"])),
        (item("おか", "第三"), found(&[])),
    ]);
    assert_eq!(report.initial, 2);
    assert_eq!(report.compound, 0);
    assert_eq!(report.missing, 1);
    assert_eq!(report.baseline_missing, 1);
    assert_eq!(report.dictionary_recovered, 0);
    assert_eq!(report.dictionary_regressed, 0);
    assert_eq!(report.top1_correct, 2);
    assert_eq!(report.baseline_top1_correct, 2);
    assert_eq!(report.dictionary_top1_improved, 0);
    assert_eq!(report.dictionary_top1_regressed, 0);
    assert_eq!(report.dictionary_top1_changed, 0);
    assert_eq!(count_stage(&report.results, RecallStage::Initial), 2);
    assert!(is_unrecalled(report.results[2].stage));
}

#[test]
fn external_dictionary_delta_counts_recovery_and_regression() {
    let baseline_report = evaluate(&[
        (item("あい", "第一"), found(&["第一"])),
        (item("うえ", "第二"), found(&[])),
    ]);
    let layered = || {
        evaluate(&[
            (item("あい", "第一"), found(&["第一"])),
            (item("うえ", "第二"), found(&["第二"])),
        ])
    };
    let recovered = layered().with_dictionary_baseline(&baseline_report);

    assert_eq!(recovered.baseline_missing, 1);
    assert_eq!(recovered.missing, 0);
    assert_eq!(recovered.dictionary_recovered, 1);
    assert_eq!(recovered.dictionary_regressed, 0);
    assert_eq!(recovered.dictionary_top1_improved, 1);
    assert_eq!(recovered.dictionary_top1_regressed, 0);
    assert_eq!(recovered.dictionary_top1_changed, 1);

    let mut regressed = layered();
    regressed.results[0].stage = RecallStage::Missing;
    regressed.results[0].top1_surface = Some("別候補".to_owned());
    regressed.results[0].top1_correct = false;
    regressed.initial -= 1;
    regressed.missing += 1;
    regressed.top1_correct -= 1;
    let regressed = regressed.with_dictionary_baseline(&baseline_report);
    assert_eq!(regressed.dictionary_recovered, 1);
    assert_eq!(regressed.dictionary_regressed, 1);
    assert_eq!(regressed.dictionary_top1_improved, 1);
    assert_eq!(regressed.dictionary_top1_regressed, 1);
    assert_eq!(regressed.dictionary_top1_changed, 2);
}

#[test]
fn evaluator_counts_long_fixed_segment_candidates() {
    let reading = "あいうえおかきくけこさしすせそたちつ";
    assert_eq!(searches(reading), (false, true));
    assert_eq!(searches("あいうえ"), (true, false));
    let report = evaluate(&[(
        item(reading, "第一1第二0第三0"),
        Searched {
            fixed_segment: texts(&["第一1第二0第三0"]),
            ..found(&["第一0第二0第三0"])
        },
    )]);

    assert_eq!(report.fixed_segment, 1);
    assert_eq!(report.missing, 0);
}

#[test]
fn explicit_json_detail_limit_can_hide_private_vocabulary() {
    let report = evaluate(&[(item("ひみつ", "秘密"), found(&["秘密"]))]);
    assert_eq!(report.shown_results(None), 1);
    assert_eq!(report.shown_results(Some(0)), 0);
    assert_eq!(report.total, 1);
}

#[test]
fn missing_items_are_listed_in_detail() {
    let report = evaluate(&[
        (item("あい", "第一"), found(&["第一"])),
        (item("うえ", "第二"), found(&[])),
        (item("おか", "第三"), found(&[])),
    ]);
    assert_eq!(detailed_results(&report, 1).len(), 1);
    assert_eq!(detailed_results(&report, 9), [1, 2]);
}

#[test]
fn limits_are_enforced_in_order() {
    let report = evaluate(&[(item("うえ", "第二"), found(&[]))]);
    let limits = options(&["--input", "items.tsv", "--max-missing", "0"]).unwrap();
    let error = enforce_thresholds(&limits, &report, None).unwrap_err();
    assert_eq!(error, "missing candidate count 1 exceeds --max-missing 0");
    let free = options(&["--input", "items.tsv"]).unwrap();
    assert!(enforce_thresholds(&free, &report, None).is_ok());
    assert_eq!(
        enforce_thresholds(&free, &report, Some("slow".to_owned())).unwrap_err(),
        "slow"
    );
    let bytes = options(&["--input", "items.tsv", "--max-dictionary-bytes", "9"]).unwrap();
    assert!(enforce_thresholds(&bytes, &report.with_dictionary_bytes(10), None).is_err());
}

#[test]
fn sizes_are_added_with_care() {
    assert_eq!(add_dictionary_bytes(1, 2), Ok(3));
    assert!(add_dictionary_bytes(u64::MAX, 1).is_err());
    assert_eq!(add_dictionary_entries(1, 2), Ok(3));
    assert!(add_dictionary_entries(usize::MAX, 1).is_err());
}

#[test]
fn private_dictionaries_are_parsed() {
    let entries = parse_dictionary_entries("にほん\t日本\t600\n").unwrap();
    assert_eq!(entries.len(), 1);
    assert_eq!(entries[0].cost, 600);
    assert!(parse_dictionary_entries("にほん\n").is_err());
}

#[test]
fn first_candidates_change_when_they_improve_or_regress() {
    let results = |firsts: [&str; 3]| {
        let items = firsts.iter().map(|first| {
            let item = RecallItem { reading: "かんじ".to_owned(), surface: "漢字".to_owned() };
            let found = Searched {
                initial: vec![first.to_string()],
                expanded: Vec::new(),
                compound: Vec::new(),
                fixed_segment: Vec::new(),
                known_components: false,
                initial_latency: 0,
            };
            evaluate_item(&item, &found)
        });
        report_on(items.collect())
    };
    let baseline = results(["感じ", "漢字", "感じ"]);
    let report = results(["漢字", "感じ", "幹事"]).with_dictionary_baseline(&baseline);
    assert_eq!(report.dictionary_top1_improved, 1);
    assert_eq!(report.dictionary_top1_regressed, 1);
    assert_eq!(report.dictionary_top1_changed, 3);
}
