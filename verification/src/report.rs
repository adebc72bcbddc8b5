//! Reports on an evaluation, and what a model or a training run takes from its outcomes.

use vstd::prelude::*;
use vstd::string::*;

use crate::candidate::{
    candidate_prefix, costs, first_expected, for_length, is_close, neural_candidate_cost_gap,
    neural_candidate_limit, neural_candidate_prefix_len, position_of_expected,
    should_score_neurally, surfaces, surfaces_of, Candidate,
};
use crate::corpus_bigram::{Diagnostics, TransitionDiagnostics};
use crate::evaluation::{item_score, item_views, score_item, AjimeeItem, ItemScore, ItemView};
use crate::evaluation_options::{
    copied_text, optional_text, ContextFilter, DatasetFormat, NeuralScoreMode, Options, OptionsView,
};
use crate::neural::{RequestView, ScoreRequest};
use crate::sampling::{spread_over, spread_positions};
use crate::text::{same_text, texts};

verus! {

/// An item with the candidates that were found for it, and the nanoseconds that took.
#[derive(Debug, PartialEq, Eq)]
pub struct ItemOutcome {
    pub item: AjimeeItem,
    pub candidates: Vec<Candidate>,
    pub latency: u64,
}

/// The items of some outcomes.
pub open spec fn outcome_items(outcomes: Seq<ItemOutcome>) -> Seq<ItemView> {
    Seq::new(outcomes.len(), |i: int| outcomes[i].item@)
}

// ---------------------------------------------------------------------------
// What a model scores
// ---------------------------------------------------------------------------

/// How many candidates a model scores, and how close they have to be.
#[derive(Clone, Copy, Debug, PartialEq, Eq, Structural)]
pub struct NeuralLimits {
    pub max_cost_gap: Option<i32>,
    pub max_candidates: Option<usize>,
    pub long_input_min_characters: Option<usize>,
    pub long_input_max_candidates: Option<usize>,
    pub max_candidate_cost_gap: Option<i32>,
    pub long_input_max_candidate_cost_gap: Option<i32>,
}

impl NeuralLimits {
    /// No limits at all.
    pub fn unlimited() -> (result: Self)
        ensures
            result == (NeuralLimits {
                max_cost_gap: None,
                max_candidates: None,
                long_input_min_characters: None,
                long_input_max_candidates: None,
                max_candidate_cost_gap: None,
                long_input_max_candidate_cost_gap: None,
            }),
    {
        NeuralLimits {
            max_cost_gap: None,
            max_candidates: None,
            long_input_min_characters: None,
            long_input_max_candidates: None,
            max_candidate_cost_gap: None,
            long_input_max_candidate_cost_gap: None,
        }
    }
}

/// How many candidates of an outcome are scored.
pub open spec fn scored_count(outcome: ItemOutcome, limits: NeuralLimits) -> int {
    let values = costs(outcome.candidates@);
    if is_close(values, limits.max_cost_gap) {
        candidate_prefix(
            values,
            for_length(
                outcome.item.input@.len(),
                limits.max_candidates,
                limits.long_input_min_characters,
                limits.long_input_max_candidates,
            ),
            for_length(
                outcome.item.input@.len(),
                limits.max_candidate_cost_gap,
                limits.long_input_min_characters,
                limits.long_input_max_candidate_cost_gap,
            ),
        )
    } else {
        0
    }
}

/// How many candidates of each outcome are scored.
pub fn scored_counts(outcomes: &[ItemOutcome], limits: NeuralLimits) -> (result: Vec<usize>)
    ensures
        result@.len() == outcomes@.len(),
        forall|i: int|
            0 <= i < outcomes@.len() ==> #[trigger] result@[i] == scored_count(outcomes@[i], limits)
                && result@[i] <= outcomes@[i].candidates@.len(),
{
    let mut result: Vec<usize> = Vec::new();
    for index in 0..outcomes.len()
        invariant
            result@.len() == index,
            forall|i: int|
                0 <= i < index ==> #[trigger] result@[i] == scored_count(outcomes@[i], limits)
                    && result@[i] <= outcomes@[i].candidates@.len(),
    {
        let outcome: &ItemOutcome = &outcomes[index];
        let count: usize = if should_score_neurally(
            outcome.candidates.as_slice(),
            limits.max_cost_gap,
        ) {
            neural_candidate_prefix_len(
                outcome.candidates.as_slice(),
                neural_candidate_limit(
                    outcome.item.input.as_str(),
                    limits.max_candidates,
                    limits.long_input_min_characters,
                    limits.long_input_max_candidates,
                ),
                neural_candidate_cost_gap(
                    outcome.item.input.as_str(),
                    limits.max_candidate_cost_gap,
                    limits.long_input_min_characters,
                    limits.long_input_max_candidate_cost_gap,
                ),
            )
        } else {
            0
        };
        result.push(count);
    }
    result
}

/// The request for the first `count` candidates of an outcome.
pub open spec fn request_of(outcome: ItemOutcome, count: int) -> RequestView {
    RequestView {
        context: outcome.item.context_text@,
        right_context: outcome.item.right_context_text@,
        input_katakana: outcome.item.input@,
        candidates: surfaces(outcome.candidates@).take(count),
    }
}

/// How many of the first `count` outcomes have at least two candidates to score.
pub open spec fn scored_before(counts: Seq<usize>, count: int) -> nat
    decreases count,
{
    if count <= 0 {
        0
    } else {
        scored_before(counts, count - 1) + (if counts[count - 1] >= 2 {
            1nat
        } else {
            0
        })
    }
}

/// How many candidates of the first `count` outcomes are scored.
pub open spec fn candidates_before(counts: Seq<usize>, count: int) -> nat
    decreases count,
{
    if count <= 0 {
        0
    } else {
        candidates_before(counts, count - 1) + (if counts[count - 1] >= 2 {
            counts[count - 1] as nat
        } else {
            0
        })
    }
}

/// The requests for those of the first `count` outcomes that have at least two candidates to
/// score.
pub open spec fn requests_before(outcomes: Seq<ItemOutcome>, counts: Seq<usize>, count: int) -> Seq<
    RequestView,
>
    decreases count,
{
    if count <= 0 {
        Seq::empty()
    } else if counts[count - 1] >= 2 {
        requests_before(outcomes, counts, count - 1).push(
            request_of(outcomes[count - 1], counts[count - 1] as int),
        )
    } else {
        requests_before(outcomes, counts, count - 1)
    }
}

/// The mathematical values of some requests.
pub open spec fn request_views(requests: Seq<ScoreRequest>) -> Seq<RequestView> {
    Seq::new(requests.len(), |i: int| requests[i]@)
}

/// What a model is asked, and where the answer for each outcome stands.
#[derive(Debug, PartialEq, Eq)]
pub struct NeuralPlan {
    pub requests: Vec<ScoreRequest>,
    /// The number of the request for each outcome; `None` if it is not scored.
    pub slots: Vec<Option<usize>>,
    pub scored_items: usize,
    pub scored_candidates: u128,
}

/// The request with the number in its slot is the request for the outcome.
pub proof fn each_slot_holds_its_request(
    outcomes: Seq<ItemOutcome>,
    counts: Seq<usize>,
    index: int,
    count: int,
)
    requires
        0 <= index < count <= counts.len(),
        counts.len() == outcomes.len(),
        counts[index] >= 2,
    ensures
        scored_before(counts, index) < requests_before(outcomes, counts, count).len(),
        requests_before(outcomes, counts, count)[scored_before(counts, index) as int]
            == request_of(outcomes[index], counts[index] as int),
        requests_before(outcomes, counts, count).len() == scored_before(counts, count),
    decreases count,
{
    requests_are_counted(outcomes, counts, count);
    requests_are_counted(outcomes, counts, index);
    requests_are_counted(outcomes, counts, count - 1);
    if index < count - 1 {
        each_slot_holds_its_request(outcomes, counts, index, count - 1);
    }
}

proof fn requests_are_counted(outcomes: Seq<ItemOutcome>, counts: Seq<usize>, count: int)
    requires
        0 <= count,
    ensures
        requests_before(outcomes, counts, count).len() == scored_before(counts, count),
        scored_before(counts, count) <= count,
    decreases count,
{
    if count > 0 {
        requests_are_counted(outcomes, counts, count - 1);
    }
}

proof fn scored_candidates_are_bounded(counts: Seq<usize>, count: int)
    requires
        0 <= count,
    ensures
        candidates_before(counts, count) <= count * usize::MAX,
    decreases count,
{
    if count > 0 {
        scored_candidates_are_bounded(counts, count - 1);
        assert((count - 1) * usize::MAX + usize::MAX == count * usize::MAX) by (nonlinear_arith);
    }
}

/// What a model is asked for the outcomes.
pub fn neural_plan(outcomes: &[ItemOutcome], counts: &[usize]) -> (result: NeuralPlan)
    requires
        counts@.len() == outcomes@.len(),
        forall|i: int|
            0 <= i < counts@.len() ==> #[trigger] counts@[i] <= outcomes@[i].candidates@.len(),
    ensures
        request_views(result.requests@) == requests_before(
            outcomes@,
            counts@,
            outcomes@.len() as int,
        ),
        result.slots@.len() == outcomes@.len(),
        forall|i: int|
            0 <= i < outcomes@.len() ==> #[trigger] result.slots@[i] == (if counts@[i] >= 2 {
                Some(scored_before(counts@, i) as usize)
            } else {
                None
            }),
        result.scored_items == scored_before(counts@, counts@.len() as int),
        result.scored_candidates == candidates_before(counts@, counts@.len() as int),
{
    let mut requests: Vec<ScoreRequest> = Vec::new();
    let mut slots: Vec<Option<usize>> = Vec::new();
    let mut scored_candidates: u128 = 0;
    assert(request_views(requests@) =~= Seq::<RequestView>::empty());
    for index in 0..outcomes.len()
        invariant
            counts@.len() == outcomes@.len(),
            forall|i: int|
                0 <= i < counts@.len() ==> #[trigger] counts@[i] <= outcomes@[i].candidates@.len(),
            request_views(requests@) == requests_before(outcomes@, counts@, index as int),
            slots@.len() == index,
            forall|i: int|
                0 <= i < index ==> #[trigger] slots@[i] == (if counts@[i] >= 2 {
                    Some(scored_before(counts@, i) as usize)
                } else {
                    None
                }),
            scored_candidates == candidates_before(counts@, index as int),
    {
        let count: usize = counts[index];
        proof {
            requests_are_counted(outcomes@, counts@, index as int);
            assert(requests@.len() == request_views(requests@).len());
            scored_candidates_are_bounded(counts@, index + 1);
            assert((index + 1) * usize::MAX <= u64::MAX * (u64::MAX + 1)) by (nonlinear_arith)
                requires
                    0 <= index < u64::MAX,
                    usize::MAX <= u64::MAX,
            ;
        }
        if count >= 2 {
            slots.push(Some(requests.len()));
            let outcome: &ItemOutcome = &outcomes[index];
            let request: ScoreRequest = ScoreRequest {
                context: outcome.item.context_text.clone(),
                right_context: outcome.item.right_context_text.clone(),
                input_katakana: outcome.item.input.clone(),
                candidates: surfaces_of(outcome.candidates.as_slice(), count),
            };
            let ghost before = request_views(requests@);
            let ghost view = request@;
            requests.push(request);
            assert(request_views(requests@) =~= before.push(view));
            scored_candidates += count as u128;
        } else {
            slots.push(None);
        }
    }
    proof {
        requests_are_counted(outcomes@, counts@, outcomes@.len() as int);
        assert(requests@.len() == request_views(requests@).len());
    }
    NeuralPlan { scored_items: requests.len(), requests, slots, scored_candidates }
}

// ---------------------------------------------------------------------------
// The report
// ---------------------------------------------------------------------------

/// The number of scores with a right first candidate.
pub open spec fn count_first(scores: Seq<ItemScore>) -> nat
    decreases scores.len(),
{
    if scores.len() == 0 {
        0
    } else {
        count_first(scores.drop_last()) + (if scores.last().rank == Some(0usize) {
            1nat
        } else {
            0
        })
    }
}

/// The number of scores with a right candidate.
pub open spec fn count_found(scores: Seq<ItemScore>) -> nat
    decreases scores.len(),
{
    if scores.len() == 0 {
        0
    } else {
        count_found(scores.drop_last()) + (if scores.last().rank is Some {
            1nat
        } else {
            0
        })
    }
}

/// The numbers of the first items without a right candidate, at most `limit`.
pub open spec fn failing(scores: Seq<ItemScore>, limit: int) -> Seq<int>
    decreases scores.len(),
{
    if scores.len() == 0 {
        Seq::empty()
    } else {
        let before = failing(scores.drop_last(), limit);
        if scores.last().rank is None && before.len() < limit {
            before.push(scores.len() - 1)
        } else {
            before
        }
    }
}

/// No more items are right at the first place than at any, and no more at any than there are;
/// an item is listed as a failure only if no candidate is right.
pub proof fn report_counts_are_consistent(scores: Seq<ItemScore>, limit: int)
    ensures
        count_first(scores) <= count_found(scores) <= scores.len(),
        limit >= 0 ==> failing(scores, limit).len() <= limit,
        failing(scores, limit).len() + count_found(scores) <= scores.len(),
        forall|i: int|
            0 <= i < failing(scores, limit).len() ==> 0 <= #[trigger] failing(scores, limit)[i]
                < scores.len() && scores[failing(scores, limit)[i]].rank is None,
    decreases scores.len(),
{
    if scores.len() > 0 {
        report_counts_are_consistent(scores.drop_last(), limit);
        let before = failing(scores.drop_last(), limit);
        assert forall|i: int| 0 <= i < failing(scores, limit).len() implies 0
            <= #[trigger] failing(scores, limit)[i] < scores.len() && scores[failing(
            scores,
            limit,
        )[i]].rank is None by {
            if i < before.len() {
                assert(failing(scores, limit)[i] == before[i]);
                assert(scores.drop_last()[before[i]] == scores[before[i]]);
            }
        }
    }
}

/// A context that the engine itself reads, a model that scored something, a trained ranker, or
/// a corpus that matched the context: whether the context was used.
pub open spec fn uses_context(
    items: Seq<ItemView>,
    diagnostics: Option<Diagnostics>,
    neural_items: Option<usize>,
    discriminative: bool,
    context: Option<TransitionDiagnostics>,
) -> bool {
    ||| diagnostics is None && exists|i: int|
        0 <= i < items.len() && (#[trigger] items[i]).context_text.len() > 0
    ||| neural_items is Some && neural_items->0 > 0
    ||| discriminative
    ||| context is Some && context->0.matched_transitions > 0
}

/// What an evaluation found.
#[derive(Debug, PartialEq, Eq)]
pub struct EvaluationReport {
    pub dataset: String,
    pub dataset_revision: Option<String>,
    pub dataset_sha256: Option<String>,
    pub context_filter: ContextFilter,
    pub context_used_by_engine: bool,
    pub neural_scored_items: Option<usize>,
    pub neural_skipped_items: Option<usize>,
    pub items: usize,
    pub top_k: usize,
    pub search_k: usize,
    pub correct_at_1: usize,
    pub correct_at_k: usize,
    pub scores: Vec<ItemScore>,
    /// The nanoseconds that each item took.
    pub latencies: Vec<u128>,
    /// The numbers of the items that are listed as failures.
    pub failures: Vec<usize>,
}

/// What is reported beside the outcomes themselves.
#[derive(Clone, Copy, Debug, PartialEq, Eq, Structural)]
pub struct ReportContext {
    pub diagnostics: Option<Diagnostics>,
    pub context: Option<TransitionDiagnostics>,
    pub neural_items: Option<usize>,
    pub discriminative: bool,
}

/// The scores of the outcomes, each with its surfaces in their final order.
pub open spec fn outcome_scores(
    outcomes: Seq<ItemOutcome>,
    ranked: Seq<Vec<String>>,
    format: DatasetFormat,
) -> Seq<ItemScore> {
    Seq::new(
        outcomes.len(),
        |i: int|
            item_score(texts(ranked[i]@), texts(outcomes[i].item.expected_output@), format),
    )
}

fn any_context(outcomes: &[ItemOutcome]) -> (result: bool)
    ensures
        result == exists|i: int|
            0 <= i < outcomes@.len() && (#[trigger] outcome_items(outcomes@)[i]).context_text.len()
                > 0,
{
    for index in 0..outcomes.len()
        invariant
            forall|i: int|
                0 <= i < index ==> (#[trigger] outcome_items(outcomes@)[i]).context_text.len()
                    == 0,
    {
        assert(outcome_items(outcomes@)[index as int] == outcomes@[index as int].item@);
        if !outcomes[index].item.context_text.as_str().is_empty() {
            return true;
        }
    }
    false
}

/// Scores the outcomes. `ranked` holds the surfaces of each outcome in their final order, and
/// `added` the nanoseconds that ranking them took.
pub fn compute_report(
    outcomes: &[ItemOutcome],
    ranked: &[Vec<String>],
    added: &[u64],
    options: &Options,
    context: ReportContext,
) -> (result: EvaluationReport)
    requires
        ranked@.len() == outcomes@.len(),
        added@.len() == outcomes@.len(),
        context.neural_items matches Some(count) ==> count <= outcomes@.len(),
    ensures
        result.scores@ == outcome_scores(outcomes@, ranked@, options.format),
        result.items == outcomes@.len(),
        result.correct_at_1 == count_first(result.scores@),
        result.correct_at_k == count_found(result.scores@),
        result.failures@.map_values(|item: usize| item as int) == failing(
            result.scores@,
            options.failures as int,
        ),
        result.latencies@ == Seq::new(
            outcomes@.len(),
            |i: int| (outcomes@[i].latency + added@[i]) as u128,
        ),
        result.dataset@ == (match optional_text(options.dataset_name) {
            Some(name) => name,
            None => options.format.title(),
        }),
        optional_text(result.dataset_revision) == optional_text(options.dataset_revision),
        optional_text(result.dataset_sha256) == optional_text(options.dataset_sha256),
        result.context_filter == options.context,
        result.context_used_by_engine == uses_context(
            outcome_items(outcomes@),
            context.diagnostics,
            context.neural_items,
            context.discriminative,
            context.context,
        ),
        result.neural_scored_items == context.neural_items,
        result.neural_skipped_items == (match context.neural_items {
            Some(count) => Some((outcomes@.len() - count) as usize),
            None => None,
        }),
        result.top_k == options.top_k,
        result.search_k == (match options.search_k {
            Some(search) => search,
            None => options.top_k,
        }),
{
    let count: usize = outcomes.len();
    let mut scores: Vec<ItemScore> = Vec::new();
    let mut latencies: Vec<u128> = Vec::new();
    let mut failures: Vec<usize> = Vec::new();
    let mut correct_at_1: usize = 0;
    let mut correct_at_k: usize = 0;
    let ghost owed = outcome_scores(outcomes@, ranked@, options.format);
    let ghost spans = Seq::new(count as nat, |i: int| (outcomes@[i].latency + added@[i]) as u128);
    assert(failures@.map_values(|item: usize| item as int) =~= Seq::<int>::empty());
    for index in 0..count
        invariant
            count == outcomes@.len(),
            ranked@.len() == count,
            added@.len() == count,
            owed == outcome_scores(outcomes@, ranked@, options.format),
            spans == Seq::new(count as nat, |i: int| (outcomes@[i].latency + added@[i]) as u128),
            scores@ == owed.take(index as int),
            latencies@ == spans.take(index as int),
            correct_at_1 == count_first(scores@),
            correct_at_k == count_found(scores@),
            correct_at_1 <= index,
            correct_at_k <= index,
            failures@.map_values(|item: usize| item as int) == failing(
                scores@,
                options.failures as int,
            ),
    {
        let outcome: &ItemOutcome = &outcomes[index];
        let score: ItemScore = score_item(
            ranked[index].as_slice(),
            outcome.item.expected_output.as_slice(),
            options.format,
        );
        let ghost before = scores@;
        scores.push(score);
        latencies.push(outcome.latency as u128 + added[index] as u128);
        assert(scores@ =~= owed.take(index + 1));
        assert(latencies@ =~= spans.take(index + 1));
        assert(scores@.drop_last() =~= before);
        match score.rank {
            Some(rank) => {
                correct_at_k += 1;
                if rank == 0 {
                    correct_at_1 += 1;
                }
            },
            None => {
                let ghost listed = failures@.map_values(|item: usize| item as int);
                assert(listed.len() == failures@.len());
                if failures.len() < options.failures {
                    failures.push(index);
                    assert(failures@.map_values(|item: usize| item as int) =~= listed.push(
                        index as int,
                    ));
                }
            },
        }
    }
    assert(scores@ =~= owed);
    assert(latencies@ =~= spans);
    let built_in: bool = context.diagnostics.is_none() && any_context(outcomes);
    let neural: bool = match context.neural_items {
        Some(scored) => scored > 0,
        None => false,
    };
    let matched: bool = match context.context {
        Some(found) => found.matched_transitions > 0,
        None => false,
    };
    let dataset: String = match &options.dataset_name {
        Some(name) => name.clone(),
        None => options.format.dataset_name().to_owned(),
    };
    EvaluationReport {
        dataset,
        dataset_revision: copied_text(&options.dataset_revision),
        dataset_sha256: copied_text(&options.dataset_sha256),
        context_filter: options.context,
        context_used_by_engine: built_in || neural || context.discriminative || matched,
        neural_scored_items: context.neural_items,
        neural_skipped_items: match context.neural_items {
            Some(scored) => Some(count - scored),
            None => None,
        },
        items: count,
        top_k: options.top_k,
        search_k: match options.search_k {
            Some(search) => search,
            None => options.top_k,
        },
        correct_at_1,
        correct_at_k,
        scores,
        latencies,
        failures,
    }
}

// ---------------------------------------------------------------------------
// The sweep
// ---------------------------------------------------------------------------

/// What the outcomes are ranked by.
#[derive(Clone, Copy, Debug, PartialEq, Eq, Structural)]
pub enum RankingMode {
    Baseline,
    Discriminative,
    Neural,
}

/// What the options rank by: a trained ranker if one is trained, else a model if there is one.
pub open spec fn mode_of(options: OptionsView) -> RankingMode {
    if options.discriminative_train is Some {
        RankingMode::Discriminative
    } else if options.neural_model is Some {
        RankingMode::Neural
    } else {
        RankingMode::Baseline
    }
}

pub fn ranking_mode(options: &Options) -> (result: RankingMode)
    ensures
        result == mode_of(options@),
{
    if options.discriminative_train.is_some() {
        RankingMode::Discriminative
    } else if options.neural_model.is_some() {
        RankingMode::Neural
    } else {
        RankingMode::Baseline
    }
}

/// One setting of a neural sweep: the bits of the interpolation weight, the score, and the
/// bits of the required lead.
#[derive(Clone, Copy, Debug, PartialEq, Eq, Structural)]
pub struct SweepPoint {
    pub lambda: u64,
    pub mode: NeuralScoreMode,
    pub margin: u64,
}

/// The setting with this number: margins change fastest, then scores, then weights.
pub open spec fn sweep_point(
    lambdas: Seq<u64>,
    modes: Seq<NeuralScoreMode>,
    margins: Seq<u64>,
    lambda: int,
    mode: int,
    margin: int,
) -> SweepPoint {
    SweepPoint { lambda: lambdas[lambda], mode: modes[mode], margin: margins[margin] }
}

/// The settings of the first `lambda` weights, of the first `mode` scores with the next
/// weight, and of the first `margin` leads with the next score.
pub open spec fn sweep_before(
    lambdas: Seq<u64>,
    modes: Seq<NeuralScoreMode>,
    margins: Seq<u64>,
    lambda: int,
    mode: int,
    margin: int,
) -> Seq<SweepPoint>
    decreases lambda, mode, margin,
{
    if lambda < 0 || mode < 0 || margin < 0 {
        Seq::empty()
    } else if margin > 0 {
        sweep_before(lambdas, modes, margins, lambda, mode, margin - 1).push(
            sweep_point(lambdas, modes, margins, lambda, mode, margin - 1),
        )
    } else if mode > 0 {
        sweep_before(lambdas, modes, margins, lambda, mode - 1, margins.len() as int)
    } else if lambda > 0 {
        sweep_before(lambdas, modes, margins, lambda - 1, modes.len() as int, 0)
    } else {
        Seq::empty()
    }
}

/// Every setting of a neural sweep, in order.
pub fn neural_sweep(lambdas: &[u64], modes: &[NeuralScoreMode], margins: &[u64]) -> (result: Vec<
    SweepPoint,
>)
    ensures
        result@ == sweep_before(lambdas@, modes@, margins@, lambdas@.len() as int, 0, 0),
{
    let mut result: Vec<SweepPoint> = Vec::new();
    for lambda in 0..lambdas.len()
        invariant
            result@ == sweep_before(lambdas@, modes@, margins@, lambda as int, 0, 0),
    {
        for mode in 0..modes.len()
            invariant
                lambda < lambdas@.len(),
                result@ == sweep_before(lambdas@, modes@, margins@, lambda as int, mode as int, 0),
        {
            for margin in 0..margins.len()
                invariant
                    lambda < lambdas@.len(),
                    mode < modes@.len(),
                    result@ == sweep_before(
                        lambdas@,
                        modes@,
                        margins@,
                        lambda as int,
                        mode as int,
                        margin as int,
                    ),
            {
                result.push(
                    SweepPoint {
                        lambda: lambdas[lambda],
                        mode: modes[mode],
                        margin: margins[margin],
                    },
                );
            }
        }
    }
    result
}

// ---------------------------------------------------------------------------
// Training
// ---------------------------------------------------------------------------

/// Whether two items are the same item of the same split.
pub open spec fn same_item(left: ItemView, right: ItemView) -> bool {
    left.source_split == right.source_split && left.index == right.index
}

/// Whether an item is none of the evaluated ones.
pub open spec fn is_fresh(item: ItemView, evaluated: Seq<ItemView>) -> bool {
    forall|i: int| 0 <= i < evaluated.len() ==> !same_item(item, #[trigger] evaluated[i])
}

/// The numbers of those of the first `count` training items that are not evaluated.
pub open spec fn fresh_before(training: Seq<ItemView>, evaluated: Seq<ItemView>, count: int) -> Seq<
    int,
>
    decreases count,
{
    if count <= 0 {
        Seq::empty()
    } else if is_fresh(training[count - 1], evaluated) {
        fresh_before(training, evaluated, count - 1).push(count - 1)
    } else {
        fresh_before(training, evaluated, count - 1)
    }
}

/// The numbers of the training items: of those that are not evaluated at most `limit`, spread
/// evenly.
pub open spec fn training_places(training: Seq<ItemView>, evaluated: Seq<ItemView>, limit: int) -> Seq<
    int,
> {
    let fresh = fresh_before(training, evaluated, training.len() as int);
    spread_positions(fresh.len(), limit as nat).map_values(|place: int| fresh[place])
}

fn same_split(left: &Option<String>, right: &Option<String>) -> (result: bool)
    ensures
        result == (optional_text(*left) == optional_text(*right)),
{
    match (left, right) {
        (Some(first), Some(second)) => same_text(first.as_str(), second.as_str()),
        (None, None) => true,
        _ => false,
    }
}

fn fresh_item(item: &AjimeeItem, evaluated: &[ItemOutcome]) -> (result: bool)
    ensures
        result == is_fresh(item@, outcome_items(evaluated@)),
{
    for index in 0..evaluated.len()
        invariant
            forall|i: int|
                0 <= i < index ==> !same_item(item@, #[trigger] outcome_items(evaluated@)[i]),
    {
        assert(outcome_items(evaluated@)[index as int] == evaluated@[index as int].item@);
        if same_split(&item.source_split, &evaluated[index].item.source_split) && same_text(
            item.index.as_str(),
            evaluated[index].item.index.as_str(),
        ) {
            return false;
        }
    }
    true
}

/// The numbers of the training items that are not evaluated.
pub fn fresh_items(training: &[AjimeeItem], evaluated: &[ItemOutcome]) -> (result: Vec<usize>)
    ensures
        result@.map_values(|place: usize| place as int) == fresh_before(
            item_views(training@),
            outcome_items(evaluated@),
            training@.len() as int,
        ),
        forall|i: int| 0 <= i < result@.len() ==> #[trigger] result@[i] < training@.len(),
{
    let ghost all = item_views(training@);
    let ghost known = outcome_items(evaluated@);
    let mut fresh: Vec<usize> = Vec::new();
    assert(fresh@.map_values(|place: usize| place as int) =~= Seq::<int>::empty());
    for index in 0..training.len()
        invariant
            all == item_views(training@),
            known == outcome_items(evaluated@),
            fresh@.map_values(|place: usize| place as int) == fresh_before(
                all,
                known,
                index as int,
            ),
            forall|i: int| 0 <= i < fresh@.len() ==> #[trigger] fresh@[i] < training@.len(),
    {
        assert(all[index as int] == training@[index as int]@);
        if fresh_item(&training[index], evaluated) {
            let ghost before = fresh@.map_values(|place: usize| place as int);
            fresh.push(index);
            assert(fresh@.map_values(|place: usize| place as int) =~= before.push(index as int));
        }
    }
    fresh
}

/// The numbers of the items to train with. None of them is evaluated.
pub fn select_training(training: &[AjimeeItem], evaluated: &[ItemOutcome], limit: usize) -> (result:
    Result<Vec<usize>, String>)
    ensures
        ({
            let fresh = fresh_before(
                item_views(training@),
                outcome_items(evaluated@),
                training@.len() as int,
            );
            &&& result is Ok <==> fresh.len() > 0 && limit > 0
            &&& result matches Ok(places) ==> places@.map_values(|place: usize| place as int)
                == training_places(
                item_views(training@),
                outcome_items(evaluated@),
                limit as int,
            )
            &&& result matches Err(error) ==> error@
                == "no non-overlapping discriminative training items remain"@
        }),
        result matches Ok(places) ==> forall|i: int|
            0 <= i < places@.len() ==> #[trigger] places@[i] < training@.len(),
{
    let ghost all = item_views(training@);
    let ghost known = outcome_items(evaluated@);
    let fresh: Vec<usize> = fresh_items(training, evaluated);
    let ghost owed = fresh_before(all, known, training@.len() as int);
    assert(fresh@.len() == owed.len());
    if fresh.len() == 0 || limit == 0 {
        return Err("no non-overlapping discriminative training items remain".to_owned());
    }
    let positions: Vec<usize> = spread_over(fresh.len(), limit);
    let ghost spread = spread_positions(owed.len(), limit as nat);
    assert(positions@.len() == spread.len());
    let mut result: Vec<usize> = Vec::new();
    for index in 0..positions.len()
        invariant
            positions@.map_values(|position: usize| position as int) == spread,
            positions@.len() == spread.len(),
            forall|i: int| 0 <= i < positions@.len() ==> #[trigger] positions@[i] < fresh@.len(),
            forall|i: int| 0 <= i < fresh@.len() ==> #[trigger] fresh@[i] < training@.len(),
            fresh@.map_values(|place: usize| place as int) == owed,
            fresh@.len() == owed.len(),
            result@.len() == index,
            forall|i: int|
                0 <= i < index ==> #[trigger] result@[i] == owed[spread[i]] && result@[i]
                    < training@.len(),
    {
        assert(spread[index as int] == positions@.map_values(
            |position: usize| position as int,
        )[index as int]);
        let place: usize = positions[index];
        assert(owed[place as int] == fresh@.map_values(|place: usize| place as int)[place as int]);
        result.push(fresh[place]);
    }
    assert(result@.map_values(|place: usize| place as int) =~= spread.map_values(
        |place: int| owed[place],
    ));
    Ok(result)
}

/// Training items are never evaluated ones.
pub proof fn training_and_evaluation_do_not_overlap(
    training: Seq<ItemView>,
    evaluated: Seq<ItemView>,
    count: int,
)
    requires
        0 <= count <= training.len(),
    ensures
        forall|i: int|
            0 <= i < fresh_before(training, evaluated, count).len() ==> 0
                <= #[trigger] fresh_before(training, evaluated, count)[i] < count && is_fresh(
                training[fresh_before(training, evaluated, count)[i]],
                evaluated,
            ),
    decreases count,
{
    if count > 0 {
        training_and_evaluation_do_not_overlap(training, evaluated, count - 1);
        let before = fresh_before(training, evaluated, count - 1);
        let after = fresh_before(training, evaluated, count);
        assert forall|i: int| 0 <= i < after.len() implies 0 <= #[trigger] after[i] < count
            && is_fresh(training[after[i]], evaluated) by {
            if i < before.len() {
                assert(after[i] == before[i]);
            }
        }
    }
}

/// The place of the candidate that is labelled as right.
pub fn label_index(candidates: &[Candidate], expected: &[String]) -> (result: Option<usize>)
    ensures
        result is Some <==> first_expected(surfaces(candidates@), texts(expected@)) is Some,
        result matches Some(place) ==> first_expected(surfaces(candidates@), texts(expected@))
            == Some(place as int),
{
    let found: Vec<String> = surfaces_of(candidates, candidates.len());
    assert(surfaces(candidates@).take(candidates@.len() as int) =~= surfaces(candidates@));
    position_of_expected(found.as_slice(), expected)
}

// ---------------------------------------------------------------------------
// What a report means
// ---------------------------------------------------------------------------

/// The failures that are listed are the first ones: they stand in order, and an item without a right
/// candidate is left out only if the list was full before it.
pub proof fn the_first_failures_are_listed(scores: Seq<ItemScore>, limit: int)
    requires
        limit >= 0,
    ensures
        forall|i: int, j: int|
            0 <= i < j < failing(scores, limit).len() ==> (#[trigger] failing(scores, limit)[i])
                < #[trigger] failing(scores, limit)[j],
        forall|k: int|
            0 <= k < scores.len() && (#[trigger] scores[k]).rank is None ==> failing(
                scores,
                limit,
            ).contains(k) || failing(scores.take(k), limit).len() == limit,
    decreases scores.len(),
{
    if scores.len() > 0 {
        let rest = scores.drop_last();
        let before = failing(rest, limit);
        let after = failing(scores, limit);
        the_first_failures_are_listed(rest, limit);
        report_counts_are_consistent(rest, limit);
        assert forall|i: int, j: int| 0 <= i < j < after.len() implies (#[trigger] after[i])
            < #[trigger] after[j] by {
            if j < before.len() {
                assert(before[i] < before[j]);
            } else {
                assert(before[i] < rest.len());
            }
        }
        assert forall|k: int| 0 <= k < scores.len() && (#[trigger] scores[k]).rank
            is None implies after.contains(k) || failing(scores.take(k), limit).len() == limit by {
            if k < rest.len() {
                assert(rest[k].rank is None);
                assert(rest.take(k) =~= scores.take(k));
                if before.contains(k) {
                    let i = choose|i: int| 0 <= i < before.len() && before[i] == k;
                    assert(after[i] == k);
                }
            } else {
                assert(scores.take(k) =~= rest);
                if before.len() < limit {
                    assert(after[before.len() as int] == k);
                }
            }
        }
    }
}

/// The numbers of right items add up over two parts of the items; one item counts at the first place
/// if its first candidate is right, and at any if some candidate is.
pub proof fn right_items_add_up(left: Seq<ItemScore>, right: Seq<ItemScore>, one: ItemScore)
    ensures
        count_first(left + right) == count_first(left) + count_first(right),
        count_found(left + right) == count_found(left) + count_found(right),
        count_first(seq![one]) == (if one.rank == Some(0usize) {
            1nat
        } else {
            0
        }),
        count_found(seq![one]) == (if one.rank is Some {
            1nat
        } else {
            0
        }),
    decreases right.len(),
{
    assert(seq![one].drop_last() =~= Seq::<ItemScore>::empty());
    assert(seq![one].last() == one);
    assert(count_first(Seq::<ItemScore>::empty()) == 0);
    assert(count_found(Seq::<ItemScore>::empty()) == 0);
    if right.len() == 0 {
        assert(left + right =~= left);
    } else {
        right_items_add_up(left, right.drop_last(), one);
        assert((left + right).drop_last() =~= left + right.drop_last());
    }
}

/// A sweep tries every weight with every score and every lead once: the leads change fastest, then
/// the scores, then the weights.
pub proof fn a_sweep_tries_every_combination(
    lambdas: Seq<u64>,
    modes: Seq<NeuralScoreMode>,
    margins: Seq<u64>,
    lambda: int,
    mode: int,
    margin: int,
)
    requires
        0 <= lambda < lambdas.len(),
        0 <= mode < modes.len(),
        0 <= margin < margins.len(),
    ensures
        ({
            let all = sweep_before(lambdas, modes, margins, lambdas.len() as int, 0, 0);
            let at = (lambda * modes.len() + mode) * margins.len() + margin;
            &&& all.len() == lambdas.len() * modes.len() * margins.len()
            &&& 0 <= at < all.len()
            &&& all[at].lambda == lambdas[lambda]
            &&& all[at].mode == modes[mode]
            &&& all[at].margin == margins[margin]
        }),
{
    let full = lambdas.len() as int;
    sweeps_have_their_length(lambdas, modes, margins, full, 0, 0);
    sweeps_have_their_length(lambdas, modes, margins, lambda, mode, margin);
    let here = sweep_before(lambdas, modes, margins, lambda, mode, margin + 1);
    let at = (lambda * modes.len() + mode) * margins.len() + margin;
    assert(here[at] == sweep_point(lambdas, modes, margins, lambda, mode, margin));
    sweeps_go_on(lambdas, modes, margins, lambda, mode, margin + 1, full, 0, 0);
    sweeps_have_their_length(lambdas, modes, margins, lambda, mode, margin + 1);
    assert((full * modes.len() + 0) * margins.len() + 0 == lambdas.len() * modes.len()
        * margins.len()) by (nonlinear_arith)
        requires
            full == lambdas.len(),
    ;
}

proof fn sweeps_have_their_length(
    lambdas: Seq<u64>,
    modes: Seq<NeuralScoreMode>,
    margins: Seq<u64>,
    lambda: int,
    mode: int,
    margin: int,
)
    requires
        0 <= lambda <= lambdas.len(),
        0 <= mode <= modes.len(),
        0 <= margin <= margins.len(),
    ensures
        sweep_before(lambdas, modes, margins, lambda, mode, margin).len() == (lambda * modes.len()
            + mode) * margins.len() + margin,
    decreases lambda, mode, margin,
{
    let (m, g) = (modes.len() as int, margins.len() as int);
    if margin > 0 {
        sweeps_have_their_length(lambdas, modes, margins, lambda, mode, margin - 1);
    } else if mode > 0 {
        sweeps_have_their_length(lambdas, modes, margins, lambda, mode - 1, g);
        assert((lambda * m + (mode - 1)) * g + g == (lambda * m + mode) * g) by (nonlinear_arith);
    } else if lambda > 0 {
        sweeps_have_their_length(lambdas, modes, margins, lambda - 1, m, 0);
        assert(((lambda - 1) * m + m) * g == (lambda * m) * g) by (nonlinear_arith);
    } else {
        assert((0 * m + 0) * g + 0 == 0) by (nonlinear_arith);
    }
}

proof fn sweeps_go_on(
    lambdas: Seq<u64>,
    modes: Seq<NeuralScoreMode>,
    margins: Seq<u64>,
    lambda: int,
    mode: int,
    margin: int,
    later_lambda: int,
    later_mode: int,
    later_margin: int,
)
    requires
        0 <= lambda <= lambdas.len(),
        0 <= mode <= modes.len(),
        0 <= margin <= margins.len(),
        0 <= later_lambda <= lambdas.len(),
        0 <= later_mode <= modes.len(),
        0 <= later_margin <= margins.len(),
        mode < modes.len() || margin == 0,
        lambda < later_lambda || (lambda == later_lambda && (mode < later_mode || (mode == later_mode
            && margin <= later_margin))),
    ensures
        sweep_before(lambdas, modes, margins, lambda, mode, margin).is_prefix_of(
            sweep_before(lambdas, modes, margins, later_lambda, later_mode, later_margin),
        ),
    decreases later_lambda, later_mode, later_margin,
{
    let here = sweep_before(lambdas, modes, margins, lambda, mode, margin);
    let later = sweep_before(lambdas, modes, margins, later_lambda, later_mode, later_margin);
    if lambda == later_lambda && mode == later_mode && margin == later_margin {
        assert(here.subrange(0, here.len() as int) =~= here);
    } else if later_margin > 0 {
        sweeps_go_on(
            lambdas,
            modes,
            margins,
            lambda,
            mode,
            margin,
            later_lambda,
            later_mode,
            later_margin - 1,
        );
        let before = sweep_before(
            lambdas,
            modes,
            margins,
            later_lambda,
            later_mode,
            later_margin - 1,
        );
        assert(later.subrange(0, here.len() as int) =~= before.subrange(0, here.len() as int));
    } else if later_mode > 0 {
        sweeps_go_on(
            lambdas,
            modes,
            margins,
            lambda,
            mode,
            margin,
            later_lambda,
            later_mode - 1,
            margins.len() as int,
        );
    } else {
        sweeps_go_on(
            lambdas,
            modes,
            margins,
            lambda,
            mode,
            margin,
            later_lambda - 1,
            modes.len() as int,
            0,
        );
    }
}

/// A training file decides how candidates are ranked, then a model; without both they keep their
/// order.
pub proof fn a_training_file_ranks_before_a_model(options: OptionsView)
    ensures
        options.discriminative_train is Some <==> mode_of(options) == RankingMode::Discriminative,
        options.discriminative_train is None && options.neural_model is Some <==> mode_of(options)
            == RankingMode::Neural,
        options.discriminative_train is None && options.neural_model is None <==> mode_of(options)
            == RankingMode::Baseline,
{
}

/// Every training item that is not evaluated can be taken, in its order.
pub proof fn fresh_items_are_all_found(
    training: Seq<ItemView>,
    evaluated: Seq<ItemView>,
    count: int,
)
    requires
        0 <= count <= training.len(),
    ensures
        forall|k: int|
            0 <= k < count ==> (fresh_before(training, evaluated, count).contains(k) <==> forall|
                i: int,
            |
                0 <= i < evaluated.len() ==> !((#[trigger] evaluated[i]).source_split == (
                #[trigger] training[k]).source_split && evaluated[i].index == training[k].index)),
        forall|i: int, j: int|
            0 <= i < j < fresh_before(training, evaluated, count).len() ==> (
            #[trigger] fresh_before(training, evaluated, count)[i]) < #[trigger] fresh_before(
                training,
                evaluated,
                count,
            )[j],
    decreases count,
{
    if count > 0 {
        let before = fresh_before(training, evaluated, count - 1);
        let after = fresh_before(training, evaluated, count);
        fresh_items_are_all_found(training, evaluated, count - 1);
        training_and_evaluation_do_not_overlap(training, evaluated, count - 1);
        training_and_evaluation_do_not_overlap(training, evaluated, count);
        assert forall|k: int| 0 <= k < count implies (after.contains(k) <==> is_fresh(
            #[trigger] training[k],
            evaluated,
        )) by {
            if k < count - 1 {
                if before.contains(k) {
                    let i = choose|i: int| 0 <= i < before.len() && before[i] == k;
                    assert(after[i] == k);
                }
                if after.contains(k) {
                    let i = choose|i: int| 0 <= i < after.len() && after[i] == k;
                    assert(is_fresh(training[after[i]], evaluated));
                }
            } else {
                if is_fresh(training[k], evaluated) {
                    assert(after[before.len() as int] == k);
                }
                if after.contains(k) {
                    let i = choose|i: int| 0 <= i < after.len() && after[i] == k;
                    assert(is_fresh(training[after[i]], evaluated));
                }
            }
        }
        assert forall|i: int, j: int| 0 <= i < j < after.len() implies (#[trigger] after[i])
            < #[trigger] after[j] by {
            if j < before.len() {
                assert(before[i] < before[j]);
            } else {
                assert(before[i] < count - 1);
            }
        }
    }
}

} // verus!
