//! Corrections, generated surfaces, and what the probes make of them.

use slime::candidate::Candidate;
use slime::correction::{
    bounded_local_substitution, bounded_multi_region_substitution,
    bounded_multi_region_surface_compression, high_accuracy_candidate_count, matches_expected,
    preserves_ascii_alphanumerics, preserves_kanji_from_hiragana_deconversion,
};
use slime::edit::{edit_distance, edits_between, Edit};
use slime::features::{feature_hash, features, Training};
use slime::generation::{
    apply_followup_prefix, apply_prefix_correction, augmented_candidates, broad_supplement,
    extended_generated_candidate, in_generative_range, rescored_index, supplemented, weighing,
    Alternative, Generated, PrefixDiagnostic,
};
use slime::greedy_probe::{judge_item, tally_column, ItemEvidence, Supplement};
use slime::neural::ScoreRequest;
use slime::probe_plan::{probe_plan, ProbeItem, ProbeSlots};
use slime::probes::{expanded_hit, judge_prefix, variant_limit};
use slime::tally::{
    contains_expected, number_true, push_all_unique, remaining_rank, tally_of, Comparison,
    RemainingRank, Tally,
};
use slime::whole_result::{
    eligible_scored_candidate, existing_generation, global_model_top, model_top, scored_variants,
    strict_delayed_long_support, whole_gates, ExistingGeneration, NearTies, WholeBlock,
};

fn candidate(surface: &str, cost: i32) -> Candidate {
    Candidate {
        surface: surface.to_owned(),
        cost,
    }
}

fn strings(values: &[&str]) -> Vec<String> {
    values.iter().map(|value| value.to_string()).collect()
}

fn generated(surface: &str) -> Generated {
    Generated {
        surface: surface.to_owned(),
        stopped_at_eos: true,
    }
}

fn letters(text: &str) -> Vec<char> {
    text.chars().collect()
}

#[test]
fn distances_count_edits() {
    assert_eq!(edit_distance("日本語", "日本語"), 0);
    assert_eq!(edit_distance("日本語", "日本"), 1);
    assert_eq!(edit_distance("", "日本"), 2);
    assert_eq!(edit_distance("kitten", "sitting"), 3);
    let edits = edits_between(&letters("あい"), &letters("あう"));
    assert_eq!(edits.len(), 2);
    assert_eq!(edits[0], Edit::Match);
}

#[test]
fn local_changes_are_bounded() {
    assert!(bounded_local_substitution("固体発生", "個体発生", 2));
    assert!(!bounded_local_substitution("固体発生", "固体発生", 2));
    assert!(!bounded_local_substitution("固体発生", "個体発", 2));
    assert!(!bounded_local_substitution("一二三", "四五六", 2));
}

#[test]
fn several_changes_are_bounded() {
    assert!(bounded_multi_region_substitution("固体の発生", "個体の発声"));
    assert!(!bounded_multi_region_substitution("固体発生", "個体発生"));
    assert!(!bounded_multi_region_surface_compression("漢字", "漢字"));
}

#[test]
fn scripts_are_preserved() {
    assert!(preserves_ascii_alphanumerics("A4の紙", "A4の髪"));
    assert!(!preserves_ascii_alphanumerics("A4の紙", "A5の紙"));
    assert!(preserves_kanji_from_hiragana_deconversion("漢字", "感字"));
    assert!(!preserves_kanji_from_hiragana_deconversion("感字", "感じ"));
    assert!(matches_expected("漢字", &strings(&["感じ", "漢字"])));
}

#[test]
fn candidates_are_counted_by_their_gaps() {
    let close = [candidate("一", 0), candidate("二", 900), candidate("三", 1_600)];
    assert_eq!(high_accuracy_candidate_count("ヨミ", "", &close), 2);
    assert_eq!(
        high_accuracy_candidate_count("チョウブンノヨミカタ", "", &close),
        3
    );
    let far = [candidate("一", 0), candidate("二", 1_200)];
    assert_eq!(high_accuracy_candidate_count("ヨミ", "", &far), 0);
    assert_eq!(
        high_accuracy_candidate_count("チョウブンノヨミカタ", "", &far),
        2
    );
    assert_eq!(
        high_accuracy_candidate_count("チョウブンノヨミカタ", "後", &far),
        0
    );
    assert_eq!(high_accuracy_candidate_count("ヨミ", "", &close[..1]), 0);
}

#[test]
fn generated_surfaces_join_the_candidates() {
    let ordinary = [candidate("固体発生", 1_000), candidate("個体派生", 1_100)];
    let written = generated("個体発生");
    let conversions = [candidate("個体発生", 1_500)];
    let augmented = augmented_candidates("コタイハッセイ", &ordinary, 2, &written, &conversions);
    assert_eq!(augmented.len(), 3);
    assert_eq!(augmented[2].surface, "個体発生");
    let costly = [candidate("個体発生", 9_000)];
    assert_eq!(
        augmented_candidates("コタイハッセイ", &ordinary, 2, &written, &costly).len(),
        2
    );
    assert_eq!(
        augmented_candidates("コタ", &ordinary, 2, &written, &conversions).len(),
        2
    );
    assert!(in_generative_range("コタイハッセイ"));
    assert!(!in_generative_range("コタ"));
    assert!(!extended_generated_candidate(
        "コタイハッセイ",
        1_000,
        "個体発生",
        &augmented,
        2
    ));
    assert!(broad_supplement(
        "コタイハッセイ",
        &ordinary,
        2,
        &written,
        &costly,
        false,
        &ordinary
    )
    .is_none());
    let supplement = broad_supplement(
        "コタイハッセイ",
        &ordinary,
        2,
        &written,
        &conversions,
        false,
        &ordinary,
    )
    .unwrap();
    let list = supplemented(vec![candidate("固体発生", 1_000)], supplement);
    assert_eq!(list.len(), 2);
    assert_eq!(list[1].surface, "個体発生");
}

#[test]
fn the_best_score_has_to_lead() {
    assert_eq!(rescored_index(&[1, 5, 3], &[true, true, true], &[true, true, true], false), 1);
    assert_eq!(rescored_index(&[1, 5, 3], &[true, false, true], &[true, true, true], false), 0);
    assert_eq!(weighing("ヨミ", ""), (false, true));
}

#[test]
fn prefixes_correct_a_conversion() {
    let diagnostic = Some(PrefixDiagnostic {
        prefix: "固体発生".to_owned(),
        alternative_is_eos: false,
        leads: true,
    });
    let safe = [Alternative {
        surface: "個体発生論".to_owned(),
        changes_name: false,
    }];
    assert_eq!(
        apply_prefix_correction(&diagnostic, "固体発生論", &safe, &[]),
        Some("個体発生論".to_owned())
    );
    let named = [Alternative {
        surface: "個体発生論".to_owned(),
        changes_name: true,
    }];
    assert_eq!(
        apply_prefix_correction(&diagnostic, "固体発生論", &named, &[]),
        None
    );
    assert_eq!(apply_prefix_correction(&None, "固体発生論", &safe, &[]), None);
    assert_eq!(
        apply_followup_prefix("固体", "個体", Some("個対".to_owned())),
        Some("個対".to_owned())
    );
    assert_eq!(
        apply_followup_prefix("固体", "個体", Some("固体".to_owned())),
        None
    );
    assert_eq!(
        apply_followup_prefix("固体", "固体", Some("個対".to_owned())),
        None
    );
    let found = judge_prefix(
        "固体発生論",
        &diagnostic,
        &Some("個体発生論".to_owned()),
        &strings(&["個体発生論"]),
    );
    assert!(found.eligible);
    assert!(found.applied);
    assert_eq!(found.corrected, "個体発生論");
    assert_eq!(
        found.comparison,
        Comparison {
            before: false,
            after: true
        }
    );
}

#[test]
fn models_have_their_own_first_candidate() {
    let scores = [3, 7, 7];
    assert_eq!(global_model_top(&scores, 3), Some(2));
    assert_eq!(global_model_top(&scores, 0), None);
    assert_eq!(model_top(&scores, 3), 1);
    let long = "ア".repeat(35);
    let ordinary = [candidate("一", 0), candidate("二", 600), candidate("三", 2_000)];
    assert_eq!(eligible_scored_candidate(&long, &ordinary, &[1, 2, 3], 3), Some(1));
    assert_eq!(eligible_scored_candidate("アア", &ordinary, &[1, 2, 3], 3), None);
    let variants = scored_variants(Some(1), &[false, true, true], Some(2));
    assert_eq!(variants.eligible_top, Some(1));
    assert_eq!(variants.beats_base, Some(1));
    assert_eq!(variants.global_model_top, None);
    assert!(strict_delayed_long_support(&ordinary, "二", Some(1)));
    assert!(!strict_delayed_long_support(&ordinary, "三", Some(2)));
}

#[test]
fn gates_name_what_blocks_a_whole_result() {
    let gates = whole_gates("コタイハッセイ", "固体発生", &generated("個体発生"), Some(500), false, false);
    assert!(gates.accepts());
    assert_eq!(gates.block(), WholeBlock::AcceptedButIncorrect);
    let unbacked = whole_gates("コタイハッセイ", "固体発生", &generated("個体発生"), None, false, false);
    assert!(!unbacked.accepts());
    assert_eq!(unbacked.block().name(), "not_lattice_backed");
    let named = whole_gates("コタイハッセイ", "固体発生", &generated("個体発生"), Some(500), false, true);
    assert_eq!(named.block().name(), "personal_name");
    let costly = whole_gates("コタイハッセイ", "固体発生", &generated("個体発生"), Some(1_001), false, false);
    assert_eq!(costly.block().name(), "cost_gap");
    let short = whole_gates("コタ", "固体", &generated("個体"), Some(0), false, false);
    assert_eq!(short.block().name(), "reading_window");
    let existing = existing_generation(
        "コタイハッセイ",
        &generated("個体発生"),
        &[candidate("固体発生", 0), candidate("個体発生", 10)],
        2,
    );
    assert!(existing.local);
    assert!(!existing.multi_region);
}

fn evidence() -> ItemEvidence {
    ItemEvidence {
        input: "コタイハッセイ".to_owned(),
        expected: strings(&["個体発生"]),
        generated: generated("個体発生"),
        base: "固体発生".to_owned(),
        backed_gap: Some(700),
        current: "固体発生".to_owned(),
        current_prefix: "固体発生".to_owned(),
        current_iterative: "固体発生".to_owned(),
        augmented: "個体発生".to_owned(),
        augmented_prefix: "個体発生".to_owned(),
        augmented_iterative: "固体発生".to_owned(),
        contrast_iterative: "固体発生".to_owned(),
        existing: ExistingGeneration {
            local: true,
            multi_region: false,
        },
        ties: NearTies {
            model: true,
            contrast: false,
            contrast_multi_region: false,
        },
        variants: vec![
            None,
            Some(Alternative {
                surface: "個体発生".to_owned(),
                changes_name: false,
            }),
            Some(Alternative {
                surface: "個体発生".to_owned(),
                changes_name: true,
            }),
        ],
        supported: false,
        strict_support: false,
        changes_name: false,
        model_top: Some(Alternative {
            surface: "固体派生".to_owned(),
            changes_name: false,
        }),
        model_leads: vec![true, false],
        supplement: Some(Supplement {
            gap: 2_000,
            selected: true,
            leads: vec![true, false, false, false, false],
        }),
    }
}

#[test]
fn an_item_is_judged_by_every_rule() {
    let found = judge_item(&evidence());
    let better = Comparison {
        before: false,
        after: true,
    };
    let worse = Comparison {
        before: true,
        after: false,
    };
    assert!(!found.base);
    assert!(found.raw);
    assert_eq!(found.backed, Some(better));
    assert_eq!(found.rescored, better);
    assert!(!found.current_prefix);
    assert!(found.augmented_prefix);
    assert_eq!(found.existing, Some(better));
    assert_eq!(found.near_tie, Some(better));
    assert_eq!(found.consensus, better);
    assert_eq!(found.contrast, worse);
    assert!(!found.multi_region.after);
    assert_eq!(
        found.scored_long.iter().map(|one| one.after).collect::<Vec<_>>(),
        [false, true, false]
    );
    assert!(found.whole);
    assert_eq!(found.block, WholeBlock::AcceptedButIncorrect);
    assert_eq!(found.model_top[0], worse);
    assert!(found.model_top[1].after);
    assert_eq!(found.supplemental.len(), 5);
    assert_eq!(found.supplemental_model.len(), 5);
    assert_eq!(found.supplemental_model[4].len(), 5);
    assert_eq!(
        found.whole_generation.iter().map(|one| one.after).collect::<Vec<_>>(),
        [false, true, true, true, true, true, true]
    );
    assert_eq!(found.preserving, found.whole_generation);
    assert_eq!(found.same_length, found.whole_generation);
    assert!(found.whole_reading.iter().all(|one| one.after));
    assert!(found.long_whole.iter().all(|one| one.after));
    assert_eq!(found.delayed_long.len(), 4);
    let tally = tally_column(&[found.whole_generation], 1);
    assert_eq!(
        tally,
        Tally {
            correct: 1,
            improvements: 1,
            regressions: 0
        }
    );
}

#[test]
fn comparisons_are_tallied() {
    let comparisons = [
        Comparison {
            before: true,
            after: true,
        },
        Comparison {
            before: false,
            after: true,
        },
        Comparison {
            before: true,
            after: false,
        },
    ];
    assert_eq!(
        tally_of(&comparisons),
        Tally {
            correct: 2,
            improvements: 1,
            regressions: 1
        }
    );
    assert_eq!(number_true(&[true, false, true]), 2);
    assert_eq!(remaining_rank(Some(31), 32), RemainingRank::Ordinary);
    assert_eq!(remaining_rank(Some(32), 32), RemainingRank::Wide);
    assert_eq!(remaining_rank(None, 32), RemainingRank::Missing);
}

#[test]
fn variants_are_merged_without_repetition() {
    let mut values = strings(&["a", "b"]);
    push_all_unique(&mut values, &strings(&["b", "c", "c"]));
    assert_eq!(values, ["a", "b", "c"]);
    assert!(contains_expected(&values, &strings(&["c"])));
    assert!(expanded_hit(&strings(&["a"]), &strings(&["b"]), &strings(&["b"])));
    assert!(!expanded_hit(&strings(&["a"]), &strings(&["b"]), &strings(&["c"])));
    assert_eq!(variant_limit(16, 10), 6);
    assert_eq!(variant_limit(16, 20), 0);
}

#[test]
fn features_are_hashed_into_their_dimensions() {
    let dimensions = 1 << 12;
    let found = features("次期", "皇帝", dimensions);
    assert_eq!(found.len(), 2 + 1 + 2 * (2 + 1));
    assert!(found.iter().all(|feature| *feature < dimensions));
    assert_eq!(
        features("遠い次期の", "皇帝", dimensions),
        features("次期の", "皇帝", dimensions)
    );
    let expected = {
        let mut hash = 0xcbf2_9ce4_8422_2325_u64 ^ 1;
        hash ^= u64::from(u32::from('皇'));
        hash = hash.wrapping_mul(0x0000_0100_0000_01b3);
        (hash & 4_095) as usize
    };
    assert_eq!(feature_hash(1, &[], &['皇'], dimensions), expected);
    assert_eq!(found[0], expected);
}

#[test]
fn a_training_counts_its_steps() {
    let mut training = Training::new();
    assert!(!training.judge(None, 0));
    assert!(!training.judge(Some(1), 1));
    assert!(training.judge(Some(1), 0));
    assert_eq!(training.step, 2);
    assert_eq!(training.oracle_items, 2);
    assert_eq!(training.updates, 1);
}

fn probe_item(context: &str, count: usize, supplemented: Option<&str>) -> ProbeItem {
    ProbeItem {
        request: ScoreRequest {
            context: context.to_owned(),
            right_context: String::new(),
            input_katakana: "カンジ".to_owned(),
            candidates: vec!["漢字".to_owned(), "感じ".to_owned()],
        },
        count,
        supplemented: supplemented.map(|surface| vec!["漢字".to_owned(), surface.to_owned()]),
    }
}

#[test]
fn the_model_is_asked_what_the_probe_needs() {
    let plan = probe_plan(&[
        probe_item("", 2, None),
        probe_item("前", 1, Some("幹事")),
        probe_item("前", 2, Some("監事")),
        probe_item("後", 2, None),
    ]);
    assert_eq!(plan.scored.len(), 3);
    assert_eq!(plan.ablated.len(), 2);
    assert_eq!(plan.supplemented.len(), 1);
    assert_eq!(plan.scored[1].context, "前");
    assert_eq!(plan.ablated[0].context, "");
    assert_eq!(plan.ablated[0].candidates, ["漢字", "感じ"]);
    assert_eq!(plan.supplemented[0].candidates, ["漢字", "監事"]);
    assert_eq!(plan.supplemented[0].context, "前");
    assert_eq!(
        plan.slots,
        [
            ProbeSlots { scored: Some(0), ablated: None, supplemented: None },
            ProbeSlots { scored: None, ablated: None, supplemented: None },
            ProbeSlots { scored: Some(1), ablated: Some(0), supplemented: Some(0) },
            ProbeSlots { scored: Some(2), ablated: Some(1), supplemented: None },
        ]
    );
}

#[test]
fn the_final_surface_is_the_generated_one_or_the_agreed_one() {
    let mut item = evidence();
    assert_eq!(item.whole_surface(), "個体発生");
    assert!(judge_item(&item).whole);
    item.generated.stopped_at_eos = false;
    assert_eq!(item.whole_surface(), "固体発生");
    assert!(!judge_item(&item).whole);
}
