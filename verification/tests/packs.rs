//! Dictionary packs: building, checking and evaluating them.

use slime::arguments::NumberBits;
use slime::context_pack_options::ContextPackOptions;
use slime::dictionary_pack::{
    parse_build_options, parse_verify_signed_options, BuildOptions, PACK_USAGE,
};
use slime::order::TextSet;
use slime::pack_evaluation::{
    add_pack_bytes, added_context_rules, check_loaded, enforce_thresholds, maximum, minimum,
    pack_totals, rank, verify_signed_report, AcceptedPack, MeasuredPack, PackTotals, ScoreCounts,
};
use slime::pack_text::{build_pack, read_context_rules, read_entries};
use slime::private_corpus::sha256_hex;
use slime::tables::{
    check_cases, check_policy, load_cases, policy_row, policy_rows, validate_reading, validate_surface,
};

fn strings(values: &[&str]) -> Vec<String> {
    values.iter().map(|value| value.to_string()).collect()
}

fn options() -> BuildOptions {
    BuildOptions {
        id: "sample-context".to_owned(),
        name: "文脈サンプル".to_owned(),
        version: "2026.08.1".to_owned(),
        license: "Example-Test-Only".to_owned(),
        minimum_slime_version: "0.1.0".to_owned(),
        published_at: "2026-08-08".to_owned(),
        provenance: "fixture/generated/sample-context".to_owned(),
        entries: Some("entries.tsv".to_owned()),
        context_rules: Some("context.tsv".to_owned()),
        output: "sample.slime-dict".to_owned(),
        json: false,
    }
}

fn pack_options(arguments: &[&str]) -> Result<ContextPackOptions, String> {
    let arguments = strings(arguments);
    let numbers: Vec<NumberBits> = arguments
        .iter()
        .map(|argument| NumberBits {
            double: argument.parse::<f64>().ok().map(f64::to_bits),
            single: argument.parse::<f32>().ok().map(f32::to_bits),
        })
        .collect();
    ContextPackOptions::parse(&arguments, &numbers)
}

fn pack(entries: usize, rules: usize, digest: &str) -> AcceptedPack {
    AcceptedPack {
        entry_count: entries,
        context_rule_count: rules,
        pack_sha256: digest.to_owned(),
    }
}

#[test]
fn builds_byte_identical_v3_packs_from_different_input_order() {
    let first = build_pack(
        &options(),
        Some("# ignored\nこまわり\t専門小回り\t6000\nてすとようご\t試験用語\n"),
        Some("文章\tきかん\t期間\t20\n文章\tきかん\t機関\t10\n"),
    )
    .unwrap();
    let second = build_pack(
        &options(),
        Some("てすとようご\t試験用語\t500\r\nこまわり\t専門小回り\t6000\r\n"),
        Some("文章\tきかん\t機関\t10\r\n文章\tきかん\t期間\t20\r\n"),
    )
    .unwrap();
    assert_eq!(first.source, second.source);
    assert_eq!(first.content_sha256, second.content_sha256);
    assert_eq!(first.format_version, 3);
    assert!(first.source.contains("てすとようご\t試験用語\t500\n"));
    assert!(
        first.source.find("文章\tきかん\t機関\t10").unwrap()
            < first.source.find("文章\tきかん\t期間\t20").unwrap()
    );
    let payload = first.source.split_once("# entries\n").unwrap().1;
    assert_eq!(first.content_sha256, sha256_hex(payload.as_bytes()));
}

#[test]
fn builds_v2_pack_without_context_input() {
    let mut build_options = options();
    build_options.context_rules = None;

    let draft = build_pack(&build_options, Some("てすとようご\t試験用語\n"), None).unwrap();
    assert_eq!(draft.format_version, 2);
    assert!(draft.source.starts_with("# slime-dictionary-pack-v2\n"));
    assert!(draft.source.contains("# entries-sha256: "));
    assert!(!draft.source.contains("# context-rules"));
}

#[test]
fn builds_context_only_v3_pack_without_a_dummy_entry() {
    let mut build_options = options();
    build_options.entries = None;

    let draft = build_pack(&build_options, None, Some("文章\tかんじ\t漢字\t0\n")).unwrap();
    assert_eq!(draft.format_version, 3);
    assert!(draft.source.contains("# entries\n# context-rules\n"));
}

#[test]
fn record_errors_do_not_disclose_their_input() {
    let private_record = "PRIVATE_FIXTURE_TOKEN\t非公開の固有語\tx";
    let error = read_entries(&format!("{private_record}\n")).unwrap_err();
    assert!(!error.contains(private_record));
    assert!(!error.contains("PRIVATE_FIXTURE_TOKEN"));
    let error = read_context_rules("非公開\tかんじ\n").unwrap_err();
    assert!(!error.contains("非公開"));
}

#[test]
fn verifies_a_complete_signed_pack_set_without_vocabulary_output() {
    let digest = sha256_hex(b"pack");
    let report = verify_signed_report(0, &[pack(1, 0, &digest)], 1).unwrap();
    assert_eq!(report.pack_count, 1);
    assert_eq!(report.entry_count, 1);
    assert_eq!(report.context_rule_count, 0);
    assert_eq!(report.pack_sha256, [digest]);
}

#[test]
fn signed_pack_gate_rejects_rollback_and_count_mismatch_without_disclosure() {
    let error = verify_signed_report(1, &[], 1).unwrap_err();
    assert_eq!(
        error,
        "signed dictionary pack verification rejected 1 file(s)"
    );
    assert_eq!(
        verify_signed_report(0, &[pack(1, 0, "a")], 2).unwrap_err(),
        "expected 2 signed dictionary pack(s), accepted 1"
    );
    assert_eq!(
        verify_signed_report(0, &[], 1).unwrap_err(),
        "expected 1 signed dictionary pack(s), accepted 0"
    );
}

#[test]
fn digests_of_signed_packs_are_sorted() {
    let report = verify_signed_report(0, &[pack(1, 2, "b"), pack(3, 4, "a")], 2).unwrap();
    assert_eq!(report.pack_sha256, ["a", "b"]);
    assert_eq!(report.entry_count, 4);
    assert_eq!(report.context_rule_count, 6);
    assert_eq!(
        verify_signed_report(0, &[pack(usize::MAX, 0, "a"), pack(1, 0, "b")], 2).unwrap_err(),
        "dictionary pack entry total overflowed"
    );
    assert_eq!(
        verify_signed_report(0, &[pack(0, usize::MAX, "a"), pack(0, 1, "b")], 2).unwrap_err(),
        "dictionary pack context rule total overflowed"
    );
}

#[test]
fn policy_errors_do_not_echo_records() {
    let private_key_id = "private-customer-key";
    let source = format!("{private_key_id}\tnot-hex");
    let rows = policy_rows(&source);
    assert!(rows[0].is_some());
    let error = check_policy("verification key", &source, &[true], &[false], 64)
        .expect_err("malformed key must fail");
    assert!(!error.contains(private_key_id));

    let private_pack_id = "private-customer-pack";
    let source = format!("{private_pack_id}\tnot-a-version");
    let error = check_policy("version floor", &source, &[true], &[false], 64)
        .expect_err("malformed floor must fail");
    assert!(!error.contains(private_pack_id));
}

#[test]
fn policies_have_rows_of_two_columns() {
    assert_eq!(
        policy_row("id\tvalue"),
        Some(("id".to_owned(), "value".to_owned()))
    );
    assert_eq!(policy_row("id"), None);
    assert_eq!(policy_row("id\tvalue\tmore"), None);
    assert!(check_policy("version floor", "", &[], &[], 64).is_err());
    assert!(check_policy("version floor", "a\tb", &[true], &[true], 64).is_ok());
    assert!(check_policy("version floor", "a\tb", &[false], &[true], 64).is_err());
    assert!(check_policy("version floor", "a\tb\nc\td", &[true, true], &[true, true], 1).is_err());
}

#[test]
fn parser_rejects_duplicates_without_echoing_vocabulary() {
    let mut cases = Vec::new();
    let mut seen = TextSet::new();
    let error = load_cases(
        "非公開前文\tかんじ\t漢字\n非公開前文\tかんじ\t感じ\n",
        &mut cases,
        &mut seen,
    )
    .unwrap_err();
    assert!(error.contains("duplicates"), "{error}");
    assert!(!error.contains("非公開前文"), "{error}");
    assert!(!error.contains("漢字"), "{error}");
}

#[test]
fn cases_before_a_row_in_error_are_kept() {
    let mut cases = Vec::new();
    let mut seen = TextSet::new();
    let error = load_cases(
        "文章\tかんじ\t漢字\n良い\tかんじ\t感じ\n文章\tかんじ\t感じ\n後\tかんじ\t幹事\n",
        &mut cases,
        &mut seen,
    )
    .unwrap_err();
    assert_eq!(error, "line 3 duplicates a context and reading");
    assert_eq!(cases.len(), 2);
    assert_eq!(cases[1].expected_surface, "感じ");
}

#[test]
fn cases_are_validated() {
    let mut cases = Vec::new();
    let mut seen = TextSet::new();
    load_cases("# comment\n\n文章\tかんじ\t漢字\n", &mut cases, &mut seen).unwrap();
    assert_eq!(cases.len(), 1);
    assert_eq!(cases[0].expected_surface, "漢字");
    assert!(load_cases("文章\tかんじ\n", &mut cases, &mut seen).is_err());
    assert!(load_cases("前\tカンジ\t漢字\n", &mut cases, &mut seen).is_err());
    assert_eq!(
        validate_reading("漢字", 4).unwrap_err(),
        "line 4 reading must be hiragana"
    );
    assert_eq!(
        validate_surface("\u{7}", 5).unwrap_err(),
        "line 5 has an invalid surface"
    );
    assert!(validate_surface("漢字", 5).is_ok());
}

#[test]
fn a_context_improvement_is_counted() {
    let totals = pack_totals(&[pack(1, 1, "a")]).unwrap();
    assert_eq!(totals.context_rule_count, 1);
    assert_eq!(added_context_rules(totals.context_rule_count, 0), 1);
    let mut counts = ScoreCounts::new();
    let ranks = counts.record(
        &strings(&["感じ", "漢字"]),
        &strings(&["漢字", "感じ"]),
        "漢字",
        10,
    );
    assert_eq!(ranks, (Some(1), Some(0)));
    assert_eq!(counts.top1_improved, 1);
    assert_eq!(counts.top1_regressed, 0);
    assert_eq!(counts.pack_top1, 1);
}

#[test]
fn shared_vocabulary_is_not_counted_as_added() {
    let baseline = pack_totals(&[pack(1, 0, "terms")]).unwrap();
    let candidate = pack_totals(&[pack(1, 0, "terms"), pack(0, 1, "context")]).unwrap();
    assert_eq!(baseline.pack_count, 1);
    assert_eq!(baseline.entry_count, 1);
    assert_eq!(
        candidate,
        PackTotals {
            pack_count: 2,
            entry_count: 1,
            context_rule_count: 1
        }
    );
    assert_eq!(
        added_context_rules(candidate.context_rule_count, baseline.context_rule_count),
        1
    );
    let mut counts = ScoreCounts::new();
    counts.record(
        &strings(&["双方", "蒼峰"]),
        &strings(&["蒼峰", "双方"]),
        "蒼峰",
        10,
    );
    assert_eq!(counts.topk_recovered, 0);
    assert_eq!(counts.top1_improved, 1);
}

#[test]
fn regressions_and_changes_are_counted() {
    let mut counts = ScoreCounts::new();
    counts.record(&strings(&["漢字"]), &strings(&["感じ"]), "漢字", 10);
    assert_eq!(counts.top1_regressed, 1);
    assert_eq!(counts.topk_regressed, 1);
    assert_eq!(counts.top1_changed, 1);
    counts.record(&[], &strings(&["感じ"]), "漢字", 10);
    assert_eq!(counts.top1_changed, 2);
    assert_eq!(rank(&strings(&["a", "b"]), "b", 1), None);
    assert_eq!(rank(&strings(&["a", "b"]), "b", 2), Some(1));
}

#[test]
fn pack_limits_are_enforced() {
    let base = ["--data-dir", "data", "--input", "cases.tsv"];
    let with = |more: &[&str]| {
        let mut all = base.to_vec();
        all.extend_from_slice(more);
        pack_options(&all).unwrap()
    };
    let measured = MeasuredPack {
        context_rule_count: 1,
        added_context_rule_count: 0,
        pack_bytes: 100,
        counts: ScoreCounts::new(),
    };
    assert!(enforce_thresholds(&with(&[]), &measured, None).is_ok());
    assert_eq!(
        enforce_thresholds(&with(&["--min-context-rules", "2"]), &measured, None).unwrap_err(),
        "context rules 1 is below the required minimum"
    );
    assert_eq!(
        enforce_thresholds(&with(&["--max-pack-bytes", "99"]), &measured, None).unwrap_err(),
        "pack bytes 100 exceeds the allowed maximum"
    );
    assert_eq!(
        enforce_thresholds(
            &with(&["--max-pack-bytes", "99"]),
            &measured,
            Some("pack p95 ms".to_owned())
        )
        .unwrap_err(),
        "pack p95 ms"
    );
    assert!(minimum("a", 1, Some(1)).is_ok());
    assert_eq!(
        maximum("top-1 changes", 2, Some(1)).unwrap_err(),
        "top-1 changes 2 exceeds the allowed maximum"
    );
    assert!(pack_options(&["--data-dir", "data", "--input", "a", "--top-k", "1001"]).is_err());
    assert!(pack_options(&["--input", "a"]).is_err());
}

#[test]
fn loading_problems_are_told_without_names() {
    assert!(check_loaded("candidate", 0, 1).is_ok());
    assert_eq!(
        check_loaded("candidate", 2, 1).unwrap_err(),
        "candidate dictionary pack loading failed for 2 file(s)"
    );
    assert_eq!(
        check_loaded("baseline", 0, 0).unwrap_err(),
        "baseline data directory contains no valid dictionary packs"
    );
    assert_eq!(add_pack_bytes(1, 2, "too many"), Ok(3));
    assert_eq!(add_pack_bytes(u64::MAX, 1, "too many").unwrap_err(), "too many");
    assert!(pack_totals(&[pack(usize::MAX, 0, "a"), pack(1, 0, "b")]).is_none());
}

#[test]
fn pack_commands_need_their_options() {
    let options = parse_build_options(&strings(&[
        "--id",
        "sample",
        "--name",
        "見本",
        "--version",
        "1.0.0",
        "--license",
        "MIT",
        "--minimum-slime-version",
        "0.1.0",
        "--published-at",
        "2026-08-08",
        "--provenance",
        "fixture",
        "--entries",
        "entries.tsv",
        "--output",
        "sample.slime-dict",
    ]))
    .unwrap();
    assert_eq!(options.id, "sample");
    assert_eq!(options.context_rules, None);
    assert!(!options.json);
    assert!(parse_build_options(&strings(&["--id"])).is_err());
    assert!(PACK_USAGE.starts_with("usage:\n"));
    let options = parse_verify_signed_options(&strings(&[
        "--data-dir",
        "data",
        "--verification-keys",
        "keys.tsv",
        "--version-floors",
        "floors.tsv",
        "--expected-packs",
        "3",
        "--json",
    ]))
    .unwrap();
    assert_eq!(options.expected_packs, 3);
    assert!(options.json);
    assert!(parse_verify_signed_options(&strings(&["--data-dir", "data"])).is_err());
}

#[test]
fn there_must_be_cases() {
    assert_eq!(check_cases(&[]).unwrap_err(), "input files contain no cases");
    let mut cases = Vec::new();
    load_cases("文章\tかんじ\t漢字\n", &mut cases, &mut TextSet::new()).unwrap();
    assert!(check_cases(&cases).is_ok());
}

#[test]
fn counts_of_a_pack_explain_each_other() {
    let mut counts = ScoreCounts::new();
    let sides = [
        (vec!["感じ", "漢字"], vec!["漢字", "感じ"]),
        (vec!["漢字"], vec!["感じ", "漢字"]),
        (vec!["感じ"], vec!["幹事"]),
        (vec!["感じ"], vec!["感じ", "漢字"]),
    ];
    for (baseline, pack) in &sides {
        counts.record(&strings(baseline), &strings(pack), "漢字", 10);
    }
    assert_eq!((counts.baseline_top1, counts.baseline_topk), (1, 2));
    assert_eq!((counts.pack_top1, counts.pack_topk), (1, 3));
    assert_eq!((counts.top1_improved, counts.top1_regressed), (1, 1));
    assert_eq!(counts.top1_changed, 3);
    assert_eq!((counts.topk_recovered, counts.topk_regressed), (1, 0));
}
