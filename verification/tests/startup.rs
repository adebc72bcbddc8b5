//! Startup evaluations and the options of the tools.

use slime::arguments::NumberBits;
use slime::balanced_options::BalancedOptions;
use slime::corpus_options::CorpusOptions;
use slime::devset_options::DevsetOptions;
use slime::probe_options::ProbeOptions;
use slime::rule_options::RuleOptions;
use slime::sampling::nearest_rank_index;
use slime::startup::{
    check_probe, enforce_thresholds, parse_maximum_rss, platform_named, probe_arguments,
    signed_difference, time_flag, Measurements, Platform, ProbeReport,
};
use slime::startup_options::StartupOptions;

fn strings(values: &[&str]) -> Vec<String> {
    values.iter().map(|value| value.to_string()).collect()
}

fn bits(arguments: &[String]) -> Vec<NumberBits> {
    arguments
        .iter()
        .map(|argument| NumberBits {
            double: argument.parse::<f64>().ok().map(f64::to_bits),
            single: argument.parse::<f32>().ok().map(f32::to_bits),
        })
        .collect()
}

fn parse(arguments: &[&str]) -> Result<StartupOptions, String> {
    let arguments = strings(arguments);
    StartupOptions::parse(&arguments, &bits(&arguments))
}

fn probe(packs: usize) -> ProbeReport {
    ProbeReport {
        signed_policy: false,
        pack_count: packs,
        entry_count: 10,
        context_rule_count: 2,
        pack_bytes: 100,
    }
}

#[test]
fn options_require_bounded_iterations() {
    let error = parse(&["--data-dir", "private", "--iterations", "2"]).unwrap_err();
    assert!(error.contains("between 3 and 21"));
    assert!(!error.contains("private"));
}

#[test]
fn signed_options_are_an_all_or_nothing_policy() {
    let private_path = "private-verification-keys.tsv";
    let error = parse(&["--data-dir", "data", "--verification-keys", private_path]).unwrap_err();
    assert!(error.contains("requires keys, floors, and expected pack count"));
    assert!(!error.contains(private_path));
}

#[test]
fn nearest_rank_percentiles_are_deterministic() {
    let values = [1.0_f64, 2.0, 3.0, 4.0, 5.0];
    let percentile = |percent: usize| values[nearest_rank_index(values.len(), percent)];
    assert!((percentile(50) - 3.0).abs() < f64::EPSILON);
    assert!((percentile(95) - 5.0).abs() < f64::EPSILON);
}

#[test]
fn parses_platform_maximum_rss() {
    let mac = b" 123456 maximum resident set size\n".as_slice();
    let linux = b" Maximum resident set size (kbytes): 123\n".as_slice();
    assert_eq!(parse_maximum_rss(mac, platform_named("macos")).unwrap(), 123_456);
    assert_eq!(
        parse_maximum_rss(linux, platform_named("linux")).unwrap(),
        123 * 1_024
    );
}

#[test]
fn resource_reports_can_be_unusable() {
    assert_eq!(
        parse_maximum_rss(&[0xFF], Platform::Linux).unwrap_err(),
        "startup resource report is not UTF-8"
    );
    assert_eq!(
        parse_maximum_rss(b"nothing\n", Platform::Linux).unwrap_err(),
        "startup resource report omitted maximum RSS"
    );
    assert_eq!(
        parse_maximum_rss(b"x maximum resident set size", Platform::MacOs).unwrap_err(),
        "startup resource report omitted maximum RSS"
    );
    assert_eq!(
        parse_maximum_rss(
            b"Maximum resident set size (kbytes): 18446744073709551615",
            Platform::Linux
        )
        .unwrap_err(),
        "startup maximum RSS overflowed"
    );
    assert_eq!(
        parse_maximum_rss(b"", Platform::Other).unwrap_err(),
        "startup RSS evaluation supports macOS and Linux"
    );
    assert_eq!(time_flag(Platform::MacOs), Ok("-l"));
    assert_eq!(time_flag(Platform::Linux), Ok("-v"));
    assert!(time_flag(platform_named("windows")).is_err());
}

#[test]
fn probes_have_to_agree() {
    let report = b"Maximum resident set size (kbytes): 2\n";
    let smaller = b"Maximum resident set size (kbytes): 1\n";
    let mut measurements = Measurements::new();
    measurements
        .record(true, Some(probe(1)), report, Platform::Linux)
        .unwrap();
    measurements
        .record(true, Some(probe(1)), smaller, Platform::Linux)
        .unwrap();
    assert_eq!(measurements.max_rss_bytes, 2_048);
    assert_eq!(measurements.probe, Some(probe(1)));
    assert_eq!(
        measurements
            .record(true, Some(probe(2)), report, Platform::Linux)
            .unwrap_err(),
        "startup probe aggregate changed between iterations"
    );
    assert_eq!(
        measurements
            .record(false, None, report, Platform::Linux)
            .unwrap_err(),
        "startup probe failed"
    );
    assert_eq!(
        measurements
            .record(true, None, report, Platform::Linux)
            .unwrap_err(),
        "startup probe returned an invalid aggregate report"
    );
}

#[test]
fn a_probe_checks_what_it_loaded() {
    assert!(check_probe(0, 2, Some(2)).is_ok());
    assert_eq!(
        check_probe(1, 2, None).unwrap_err(),
        "startup probe rejected 1 dictionary pack file(s)"
    );
    assert_eq!(
        check_probe(0, 0, None).unwrap_err(),
        "startup probe loaded no dictionary packs"
    );
    assert_eq!(
        check_probe(0, 2, Some(3)).unwrap_err(),
        "startup probe expected 3 pack(s), accepted 2"
    );
}

#[test]
fn a_probe_reads_what_it_is_given() {
    let options = parse(&[
        "--data-dir",
        "data",
        "--verification-keys",
        "keys.tsv",
        "--version-floors",
        "floors.tsv",
        "--expected-packs",
        "4",
    ])
    .unwrap();
    let arguments = probe_arguments("data", &options, options.expected_packs);
    assert_eq!(arguments[0], "--probe");
    let read = ProbeOptions::parse(&arguments[1..], &bits(&arguments[1..])).unwrap();
    assert_eq!(read.data_directory, "data");
    let policy = read.policy.unwrap();
    assert_eq!(policy.verification_keys, "keys.tsv");
    assert_eq!(policy.version_floors, "floors.tsv");
    assert_eq!(policy.expected_packs, 4);
    let plain = parse(&["--data-dir", "data"]).unwrap();
    assert_eq!(
        probe_arguments("data", &plain, None),
        ["--probe", "--data-dir", "data"]
    );
    assert!(ProbeOptions::parse(&[], &[]).is_err());
}

#[test]
fn startup_limits_are_enforced_in_order() {
    let limits = parse(&[
        "--data-dir",
        "data",
        "--baseline-data-dir",
        "base",
        "--max-rss-bytes",
        "10",
        "--max-rss-delta-bytes",
        "5",
    ])
    .unwrap();
    assert!(enforce_thresholds(&limits, 10, Some(5), None, None).is_ok());
    assert_eq!(
        enforce_thresholds(&limits, 11, Some(6), None, None).unwrap_err(),
        "process maximum RSS delta 6 bytes exceeds the allowed maximum"
    );
    assert_eq!(
        enforce_thresholds(&limits, 11, Some(-6), None, None).unwrap_err(),
        "process maximum RSS 11 bytes exceeds the allowed maximum"
    );
    assert_eq!(
        enforce_thresholds(&limits, 11, Some(6), Some("slow".to_owned()), None).unwrap_err(),
        "slow"
    );
    assert_eq!(
        enforce_thresholds(&limits, 11, None, None, Some("late".to_owned())).unwrap_err(),
        "late"
    );
    assert_eq!(signed_difference(1, 3), Ok(-2));
    assert_eq!(
        signed_difference(u64::MAX, 0).unwrap_err(),
        "startup RSS delta overflowed"
    );
}

#[test]
fn startup_options_depend_on_each_other() {
    assert!(parse(&["--data-dir", "data", "--max-rss-delta-bytes", "5"]).is_err());
    assert!(parse(&["--data-dir", "data", "--baseline-expected-packs", "5"]).is_err());
    assert!(parse(&["--data-dir", "data", "--max-median-ms", "-1"]).is_err());
    assert!(parse(&[]).is_err());
    let options = parse(&["--data-dir", "data", "--max-median-ms", "1.5"]).unwrap();
    assert_eq!(options.max_median_ms, Some(1.5_f64.to_bits()));
    assert_eq!(options.iterations, 5);
}

#[test]
fn devset_options_select_a_partition() {
    let parse = |arguments: &[&str]| {
        let arguments = strings(arguments);
        DevsetOptions::parse(&arguments, &bits(&arguments))
    };
    let options = parse(&[
        "train.jsonl",
        "mozc.tsv",
        "out.json",
        "--partition-count",
        "3",
        "--partition-index",
        "1",
    ])
    .unwrap();
    assert_eq!(options.count, 400);
    assert_eq!(options.partition_count, 3);
    assert_eq!(options.partition_index, Some(1));
    assert!(parse(&["train.jsonl", "mozc.tsv"]).is_err());
    assert!(parse(&["a", "b", "c", "--count", "0"]).is_err());
    assert!(parse(&["a", "b", "c", "--partition-count", "2"]).is_err());
    assert!(parse(&["a", "b", "c", "--partition-index", "1"]).is_err());
    assert!(parse(&[
        "a",
        "b",
        "c",
        "--partition-count",
        "2",
        "--partition-index",
        "0",
        "--exclude-partition-index",
        "1"
    ])
    .is_err());
}

#[test]
fn other_tools_read_their_options() {
    let arguments = strings(&["in.conllu", "mozc.tsv", "out.json", "--source-split", "test"]);
    let options = BalancedOptions::parse(&arguments, &bits(&arguments)).unwrap();
    assert_eq!(options.source_split, "test");
    assert!(!options.phrase_windows);
    assert!(BalancedOptions::parse(&arguments[..3], &bits(&arguments[..3])).is_err());
    assert!(CorpusOptions::parse(&[], &[]).is_err());
    assert!(RuleOptions::parse(&[], &[]).is_err());
    let arguments = strings(&["--input", "corpus.txt", "--output", "rules.tsv"]);
    let options = RuleOptions::parse(&arguments, &bits(&arguments)).unwrap();
    assert_eq!(options.thresholds.minimum_count, 3);
    assert_eq!(options.thresholds.minimum_margin, 2);
    assert_eq!(options.thresholds.minimum_share_basis_points, 7_500);
    assert_eq!(options.thresholds.maximum_rules, 10_000);
}
