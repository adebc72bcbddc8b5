//! Prompts, token tries and scoring plans.

use slime::neural::{
    build_left_prompt, build_prompt, candidate_batch, check_runtime_bounds, chunk_bounds,
    first_mismatch, is_scorable, position, preferred_prefix, prompt_batch, score_plan,
    sequence_counts,
};
use slime::scoring::plan_item;
use slime::trie::CandidateTokenTrie;

#[test]
fn candidate_trie_shares_exact_token_prefixes() {
    let trie = CandidateTokenTrie::build(&[
        vec![1, 2, 3],
        vec![1, 2, 4],
        vec![1, 5],
    ]);

    assert_eq!(trie.nodes.len(), 5);
    assert_eq!(trie.candidate_paths[0], [0, 1, 2]);
    assert_eq!(trie.candidate_paths[1], [0, 1, 3]);
    assert_eq!(trie.candidate_paths[2], [0, 4]);
    assert_eq!(trie.nodes[0].sequences, [0, 1, 2]);
    assert_eq!(trie.nodes[1].sequences, [0, 1]);
    assert_eq!(trie.nodes[2].sequences, [0]);
    assert_eq!(trie.nodes[3].sequences, [1]);
    assert_eq!(trie.nodes[4].sequences, [2]);
}

#[test]
fn candidate_trie_links_each_prefix_to_those_behind_it() {
    let trie = CandidateTokenTrie::build(&[vec![1, 2, 3], vec![1, 2, 4], vec![1, 5]]);
    assert_eq!(trie.nodes[0].children, [1, 4]);
    assert_eq!(trie.nodes[1].children, [2, 3]);
    for leaf in 2..5 {
        assert!(trie.nodes[leaf].children.is_empty());
    }
}

#[test]
fn candidate_trie_keeps_empty_and_disjoint_candidates_aligned() {
    let trie =
        CandidateTokenTrie::build(&[Vec::new(), vec![7], vec![8]]);

    assert!(trie.candidate_paths[0].is_empty());
    assert_eq!(trie.candidate_paths[1], [0]);
    assert_eq!(trie.candidate_paths[2], [1]);
    assert_eq!(trie.nodes[0].sequences, [1]);
    assert_eq!(trie.nodes[1].sequences, [2]);
}

#[test]
fn lib_builds_zenz_v3_prompt_with_context() {
    assert_eq!(
        build_prompt("彼は", "", "コウテイ"),
        "\u{EE02}彼は\u{EE00}コウテイ\u{EE01}"
    );
}

#[test]
fn lib_omits_context_block_when_context_is_empty() {
    assert_eq!(build_prompt("", "", "コウテイ"), "\u{EE00}コウテイ\u{EE01}");
}

#[test]
fn lib_truncates_context_to_the_last_forty_characters() {
    let context: String = "あ".repeat(60);
    let prompt = build_prompt(&context, "", "カナ");
    let context_part: String = prompt
        .chars()
        .skip(1)
        .take_while(|&character| character != '\u{EE00}')
        .collect();
    assert_eq!(context_part.chars().count(), 40);
}

#[test]
fn builds_zenz_v3_prompt_with_bounded_right_context() {
    let right_context: String = "後".repeat(60);
    let prompt = build_prompt("前", &right_context, "カナ");
    assert!(prompt.starts_with("\u{EE02}前\u{EE07}"));
    let right: String = prompt
        .chars()
        .skip_while(|&character| character != '\u{EE07}')
        .skip(1)
        .take_while(|&character| character != '\u{EE00}')
        .collect();
    assert_eq!(right.chars().count(), 40);
}

#[test]
fn neural_builds_zenz_v3_prompt_with_context() {
    assert_eq!(
        build_left_prompt("彼は", "コウテイ"),
        "\u{EE02}彼は\u{EE00}コウテイ\u{EE01}"
    );
}

#[test]
fn neural_omits_context_block_when_context_is_empty() {
    assert_eq!(build_left_prompt("", "コウテイ"), "\u{EE00}コウテイ\u{EE01}");
}

#[test]
fn neural_truncates_context_to_the_last_forty_characters() {
    let context: String = "あ".repeat(60);
    let prompt = build_left_prompt(&context, "カナ");
    let context_part: String = prompt
        .chars()
        .skip(1)
        .take_while(|&character| character != '\u{EE00}')
        .collect();
    assert_eq!(context_part.chars().count(), 40);
}

#[test]
fn far_context_is_cut_off() {
    let near: String = "近".repeat(40);
    let far = format!("遠い{near}");
    assert_eq!(
        build_prompt(&far, "", "カナ"),
        build_prompt(&near, "", "カナ")
    );
}

#[test]
fn runtime_bounds_are_positive() {
    assert!(check_runtime_bounds(16, 1_024).is_ok());
    assert_eq!(
        check_runtime_bounds(0, 1_024).unwrap_err(),
        "neural runtime bounds must be positive"
    );
    assert_eq!(
        check_runtime_bounds(16, 0).unwrap_err(),
        "neural runtime bounds must be positive"
    );
}

#[test]
fn sequences_are_counted_in_two_types() {
    assert_eq!(sequence_counts(16), Ok((16, 16)));
    assert_eq!(
        sequence_counts(3_000_000_000).unwrap_err(),
        "parallel candidate count does not fit i32"
    );
    assert_eq!(
        sequence_counts(5_000_000_000).unwrap_err(),
        "parallel candidate count does not fit u32"
    );
}

#[test]
fn candidates_are_scored_in_chunks() {
    assert_eq!(chunk_bounds(5, 2), [(0, 2), (2, 4), (4, 5)]);
    assert_eq!(chunk_bounds(0, 2), []);
}

#[test]
fn batches_share_the_prompt_and_follow_the_trie() {
    let prompt = prompt_batch(&[10, 11], 2);
    assert_eq!(prompt.len(), 2);
    assert_eq!(prompt[1].token, 11);
    assert_eq!(prompt[1].position, 1);
    assert_eq!(prompt[1].sequences, [0, 1]);
    assert!(!prompt[0].answered);
    assert!(prompt[1].answered);
    let trie = CandidateTokenTrie::build(&[vec![1, 2], vec![1, 3]]);
    let batch = candidate_batch(&trie, 2);
    assert_eq!(batch.len(), 3);
    assert_eq!(batch[0].position, 2);
    assert_eq!(batch[1].position, 3);
    assert_eq!(batch[0].sequences, [0, 1]);
    assert_eq!(batch[2].sequences, [1]);
}

#[test]
fn each_token_is_scored_behind_the_one_before() {
    let plan = score_plan(&[7, 8], &[0, 3], 5, 2);
    assert_eq!(plan.len(), 3);
    assert_eq!(plan[0].row, None);
    assert_eq!(plan[0].token, 7);
    assert_eq!(plan[1].row, Some(5));
    assert_eq!(plan[1].token, 8);
    assert_eq!(plan[2].row, Some(8));
    assert_eq!(plan[2].token, 2);
}

#[test]
fn the_preferred_prefix_ends_where_the_model_differs() {
    assert_eq!(first_mismatch(&[1, 2, 3], &[1, 5, 3]), Some(1));
    assert_eq!(first_mismatch(&[1, 2], &[1, 2]), None);
    assert_eq!(preferred_prefix(&[1, 2, 3], 1, 5, 9), (vec![1, 5], false));
    assert_eq!(preferred_prefix(&[1, 2, 3], 1, 9, 9), (vec![1], true));
}

#[test]
fn long_candidates_are_not_scored() {
    assert!(is_scorable(10, &[3, 4]));
    assert!(!is_scorable(10_000, &[3, 4]));
    assert_eq!(position(7), 7);
}

#[test]
fn an_item_is_scored_in_calls() {
    let plan = plan_item(&[10, 11], &[vec![1, 2], vec![1, 3], vec![]], 2, 9).unwrap();
    assert_eq!(plan.prompt.len(), 2);
    assert_eq!(plan.calls.len(), 2);
    assert_eq!((plan.calls[0].start, plan.calls[0].end), (0, 2));
    assert_eq!((plan.calls[1].start, plan.calls[1].end), (2, 3));
    assert_eq!(plan.calls[0].batch.len(), 3);
    let second = &plan.calls[0].scores[1];
    assert_eq!(second[0].row, None);
    assert_eq!(second[1].row, Some(1));
    assert_eq!(second[1].token, 3);
    assert_eq!(second[2].row, Some(3));
    assert_eq!(second[2].token, 9);
    assert!(plan.calls[1].scores[0].is_empty());
    assert!(plan_item(&[], &[vec![1]], 2, 9).is_none());
    assert!(plan_item(&[1; 1_020], &[vec![1; 10]], 2, 9).is_none());
}
