//! The plan by which a model scores the candidates of an item: which tokens it decodes in which
//! call, and from which answers the scores are read.

use crate::neural::{
    candidate_batch, chunk_bounds, chunks_from, copied_numbers, fits_the_model, is_scorable, longest, prompt_batch,
    score_plan, scored_tokens, BatchToken, ScoredToken, MAX_POSITIONS,
};
use crate::trie::{
    all_prefixes, each_prefix_has_one_node, starts_some, token_lists, CandidateTokenTrie,
};
use vstd::prelude::*;

verus! {

/// One call of the model: the candidates from `start` up to `end`.
#[derive(Debug)]
pub struct ScoringCall {
    pub start: usize,
    pub end: usize,
    /// The tokens that are decoded behind the prompt.
    pub batch: Vec<BatchToken>,
    pub trie: CandidateTokenTrie,
    /// For each candidate the tokens that make up its score.
    pub scores: Vec<Vec<ScoredToken>>,
}

/// How an item is scored. The prompt is decoded with the first call, and its answer is the first
/// row of that call.
#[derive(Debug)]
pub struct ScoringPlan {
    pub prompt: Vec<BatchToken>,
    pub calls: Vec<ScoringCall>,
}

/// The lengths of some token lists.
pub open spec fn lengths_of(candidates: Seq<Seq<i32>>) -> Seq<usize> {
    Seq::new(candidates.len(), |i: int| candidates[i].len() as usize)
}

/// Whether a batch holds the tokens of a prompt, which belong to every sequence.
pub open spec fn is_prompt_batch(batch: Seq<BatchToken>, tokens: Seq<i32>, sequences: int) -> bool {
    &&& batch.len() == tokens.len()
    &&& forall|i: int|
        0 <= i < tokens.len() ==> {
            &&& (#[trigger] batch[i]).token == tokens[i]
            &&& batch[i].position == i
            &&& batch[i].sequences@ == Seq::new(sequences as nat, |s: int| s as i32)
            &&& batch[i].answered == (i == tokens.len() - 1)
        }
}

/// Whether a call scores the candidates `tokens`, whose answers start at the row `base`: it
/// decodes each of their shared prefixes once, behind the prompt, and reads the score of each
/// token behind the tokens before it.
pub open spec fn scores_candidates(
    call: ScoringCall,
    tokens: Seq<Seq<i32>>,
    prompt_length: int,
    base: int,
    eos: i32,
) -> bool {
    &&& call.trie.is_trie_of(tokens)
    &&& call.batch@.len() == call.trie.nodes@.len()
    &&& forall|k: int|
        0 <= k < call.batch@.len() ==> {
            &&& (#[trigger] call.batch@[k]).token == call.trie.nodes@[k].token
            &&& call.batch@[k].position == prompt_length + call.trie.nodes@[k].depth - 1
            &&& call.batch@[k].sequences@ == call.trie.nodes@[k].sequences@
            &&& call.batch@[k].answered
        }
    &&& call.scores@.len() == tokens.len()
    &&& forall|c: int|
        0 <= c < tokens.len() ==> (#[trigger] call.scores@[c])@ == (if tokens[c].len() == 0 {
            Seq::empty()
        } else {
            scored_tokens(tokens[c], call.trie.candidate_paths@[c]@, base, eos)
        })
}

/// The row at which the answers for the candidates of a call start: the prompt's answer comes
/// first in the first call.
pub open spec fn row_base(call: int) -> int {
    if call == 0 {
        1
    } else {
        0
    }
}

/// Whether a plan scores all candidates, in calls of at most `parallel` candidates each.
pub open spec fn scores_item(
    plan: ScoringPlan,
    prompt: Seq<i32>,
    candidates: Seq<Seq<i32>>,
    parallel: int,
    eos: i32,
) -> bool {
    let chunks = chunks_from(0, candidates.len() as int, parallel);
    &&& is_prompt_batch(plan.prompt@, prompt, parallel)
    &&& plan.calls@.len() == chunks.len()
    &&& forall|i: int|
        0 <= i < chunks.len() ==> {
            &&& (#[trigger] plan.calls@[i]).start == chunks[i].0
            &&& plan.calls@[i].end == chunks[i].1
            &&& scores_candidates(
                plan.calls@[i],
                candidates.subrange(chunks[i].0, chunks[i].1),
                prompt.len() as int,
                row_base(i),
                eos,
            )
        }
}

proof fn no_length_exceeds_the_longest(lengths: Seq<usize>, index: int)
    requires
        0 <= index < lengths.len(),
    ensures
        lengths[index] <= longest(lengths),
    decreases lengths.len(),
{
    if index < lengths.len() - 1 {
        assert(lengths.drop_last()[index] == lengths[index]);
        no_length_exceeds_the_longest(lengths.drop_last(), index);
    }
}

fn plan_call(
    candidates: &[Vec<i32>],
    start: usize,
    end: usize,
    prompt_length: usize,
    base: usize,
    eos: i32,
) -> (result: ScoringCall)
    requires
        start < end <= candidates@.len(),
        end - start <= 0x8000_0000,
        base <= 1,
        forall|i: int|
            0 <= i < candidates@.len() ==> prompt_length + (#[trigger] candidates@[i])@.len()
                < MAX_POSITIONS,
    ensures
        result.start == start,
        result.end == end,
        scores_candidates(
            result,
            token_lists(candidates@).subrange(start as int, end as int),
            prompt_length as int,
            base as int,
            eos,
        ),
{
    let ghost wanted = token_lists(candidates@).subrange(start as int, end as int);
    let mut chunk: Vec<Vec<i32>> = Vec::new();
    for index in start..end
        invariant
            start < end <= candidates@.len(),
            chunk@.len() == index - start,
            forall|i: int|
                0 <= i < chunk@.len() ==> (#[trigger] chunk@[i])@ == candidates@[start + i]@,
    {
        chunk.push(copied_numbers(&candidates[index]));
    }
    assert(token_lists(chunk@) =~= wanted);
    let trie: CandidateTokenTrie = CandidateTokenTrie::build(chunk.as_slice());
    let ghost prefixes = all_prefixes(wanted, wanted.len() as int);
    proof {
        each_prefix_has_one_node(wanted, wanted.len() as int);
        assert forall|k: int| 0 <= k < trie.nodes@.len() implies 0 < (
        #[trigger] trie.nodes@[k]).depth && trie.nodes@[k].depth + prompt_length
            <= MAX_POSITIONS by {
            assert(trie.nodes@[k].depth == prefixes[k].len());
            assert(starts_some(wanted, prefixes[k], wanted.len() as int));
            let c = choose|c: int|
                0 <= c < wanted.len() && prefixes[k].is_prefix_of(#[trigger] wanted[c]);
            assert(wanted[c] == candidates@[start + c]@);
        }
    }
    let batch: Vec<BatchToken> = candidate_batch(&trie, prompt_length);
    let count: usize = trie.nodes.len();
    let mut scores: Vec<Vec<ScoredToken>> = Vec::new();
    for index in 0..chunk.len()
        invariant
            base <= 1,
            count == trie.nodes@.len(),
            token_lists(chunk@) == wanted,
            chunk@.len() == wanted.len(),
            prefixes == all_prefixes(wanted, wanted.len() as int),
            trie.is_trie_of(wanted),
            scores@.len() == index,
            forall|c: int|
                0 <= c < index ==> (#[trigger] scores@[c])@ == (if wanted[c].len() == 0 {
                    Seq::empty()
                } else {
                    scored_tokens(wanted[c], trie.candidate_paths@[c]@, base as int, eos)
                }),
    {
        assert(wanted[index as int] == chunk@[index as int]@);
        let ghost path = trie.candidate_paths@[index as int]@;
        assert(path.len() == wanted[index as int].len());
        assert forall|i: int| 0 <= i < path.len() implies base + #[trigger] path[i]
            <= usize::MAX by {
            assert(path[i] < prefixes.len());
        }
        scores.push(
            score_plan(
                chunk[index].as_slice(),
                trie.candidate_paths[index].as_slice(),
                base,
                eos,
            ),
        );
    }
    ScoringCall { start, end, batch, trie, scores }
}

/// The plan by which an item is scored. `None` if its prompt and candidates do not fit the model:
/// such an item keeps its order.
pub fn plan_item(prompt: &[i32], candidates: &[Vec<i32>], parallel: usize, eos: i32) -> (result:
    Option<ScoringPlan>)
    requires
        0 < parallel <= 0x8000_0000,
    ensures
        result is Some <==> fits_the_model(
            prompt@.len() as int,
            lengths_of(token_lists(candidates@)),
        ),
        result matches Some(plan) ==> scores_item(
            plan,
            prompt@,
            token_lists(candidates@),
            parallel as int,
            eos,
        ),
{
    let ghost lists = token_lists(candidates@);
    let mut lengths: Vec<usize> = Vec::new();
    for index in 0..candidates.len()
        invariant
            lengths@.len() == index,
            forall|i: int| 0 <= i < index ==> #[trigger] lengths@[i] == candidates@[i]@.len(),
    {
        lengths.push(candidates[index].len());
    }
    assert(lengths@ =~= lengths_of(lists));
    if !is_scorable(prompt.len(), lengths.as_slice()) {
        return None;
    }
    proof {
        assert forall|i: int| 0 <= i < candidates@.len() implies prompt@.len() + (
        #[trigger] candidates@[i])@.len() < MAX_POSITIONS by {
            no_length_exceeds_the_longest(lengths@, i);
        }
        longest_is_no_negative(lengths@);
    }
    let prompt_tokens: Vec<BatchToken> = prompt_batch(prompt, parallel);
    let bounds: Vec<(usize, usize)> = chunk_bounds(candidates.len(), parallel);
    let ghost chunks = chunks_from(0, candidates@.len() as int, parallel as int);
    let ghost view = |bounds: (usize, usize)| (bounds.0 as int, bounds.1 as int);
    assert(bounds@.map_values(view) == chunks);
    assert(bounds@.len() == chunks.len());
    let mut calls: Vec<ScoringCall> = Vec::new();
    for index in 0..bounds.len()
        invariant
            0 < parallel <= 0x8000_0000,
            lists == token_lists(candidates@),
            view == (|bounds: (usize, usize)| (bounds.0 as int, bounds.1 as int)),
            bounds@.map_values(view) == chunks,
            bounds@.len() == chunks.len(),
            forall|i: int|
                0 <= i < bounds@.len() ==> (#[trigger] bounds@[i]).0 < bounds@[i].1
                    <= candidates@.len() && bounds@[i].1 - bounds@[i].0 <= parallel,
            forall|i: int|
                0 <= i < candidates@.len() ==> prompt@.len() + (#[trigger] candidates@[i])@.len()
                    < MAX_POSITIONS,
            calls@.len() == index,
            forall|i: int|
                0 <= i < index ==> {
                    &&& (#[trigger] calls@[i]).start == chunks[i].0
                    &&& calls@[i].end == chunks[i].1
                    &&& scores_candidates(
                        calls@[i],
                        lists.subrange(chunks[i].0, chunks[i].1),
                        prompt@.len() as int,
                        row_base(i),
                        eos,
                    )
                },
    {
        let (start, end) = bounds[index];
        assert(bounds@.map_values(view)[index as int] == (start as int, end as int));
        let base: usize = if index == 0 {
            1
        } else {
            0
        };
        calls.push(plan_call(candidates, start, end, prompt.len(), base, eos));
    }
    Some(ScoringPlan { prompt: prompt_tokens, calls })
}

proof fn longest_is_no_negative(lengths: Seq<usize>)
    ensures
        longest(lengths) >= 0,
    decreases lengths.len(),
{
    if lengths.len() > 0 {
        longest_is_no_negative(lengths.drop_last());
    }
}

} // verus!
