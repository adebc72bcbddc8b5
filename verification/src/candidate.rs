//! Conversion candidates: cost gaps, the candidates worth scoring, and their order by score.

use vstd::prelude::*;
use vstd::relations::*;
use vstd::seq_lib::*;

use crate::order::{sorted, Ranked};
use crate::text::{character_count, holds_text, same_text, texts};

verus! {

broadcast use group_to_multiset_ensures;

/// A surface that the dictionary offers for a reading, with its cost.
#[derive(Debug, PartialEq, Eq)]
pub struct Candidate {
    pub surface: String,
    pub cost: i32,
}

impl View for Candidate {
    type V = (Seq<char>, int);

    open spec fn view(&self) -> (Seq<char>, int) {
        (self.surface@, self.cost as int)
    }
}

/// The surfaces and costs of the candidates.
pub open spec fn views(candidates: Seq<Candidate>) -> Seq<(Seq<char>, int)> {
    Seq::new(candidates.len(), |i: int| candidates[i]@)
}

/// The costs of the candidates.
pub open spec fn costs(candidates: Seq<Candidate>) -> Seq<int> {
    Seq::new(candidates.len(), |i: int| candidates[i].cost as int)
}

/// The surfaces of the candidates.
pub open spec fn surfaces(candidates: Seq<Candidate>) -> Seq<Seq<char>> {
    Seq::new(candidates.len(), |i: int| candidates[i].surface@)
}

/// A copy of a candidate.
pub fn copied(candidate: &Candidate) -> (result: Candidate)
    ensures
        result@ == candidate@,
{
    Candidate { surface: candidate.surface.clone(), cost: candidate.cost }
}

/// Copies of the first `count` candidates.
pub fn copied_start(candidates: &[Candidate], count: usize) -> (result: Vec<Candidate>)
    requires
        count <= candidates@.len(),
    ensures
        views(result@) == views(candidates@).take(count as int),
{
    let mut result: Vec<Candidate> = Vec::new();
    for index in 0..count
        invariant
            count <= candidates@.len(),
            views(result@) == views(candidates@).take(index as int),
    {
        let ghost before = views(result@);
        result.push(copied(&candidates[index]));
        assert(views(result@) =~= before.push(candidates@[index as int]@));
        assert(views(result@) =~= views(candidates@).take(index + 1));
    }
    result
}

/// The surfaces of the first `count` candidates.
pub fn surfaces_of(candidates: &[Candidate], count: usize) -> (result: Vec<String>)
    requires
        count <= candidates@.len(),
    ensures
        texts(result@) == surfaces(candidates@).take(count as int),
{
    let mut result: Vec<String> = Vec::new();
    for index in 0..count
        invariant
            count <= candidates@.len(),
            texts(result@) == surfaces(candidates@).take(index as int),
    {
        let ghost before = texts(result@);
        result.push(candidates[index].surface.clone());
        assert(texts(result@) =~= before.push(candidates@[index as int].surface@));
        assert(texts(result@) =~= surfaces(candidates@).take(index + 1));
    }
    result
}

/// The place of the first candidate with one of the expected surfaces.
pub open spec fn first_expected(found: Seq<Seq<char>>, expected: Seq<Seq<char>>) -> Option<int>
    decreases found.len(),
{
    if found.len() == 0 {
        None
    } else if expected.contains(found[0]) {
        Some(0)
    } else {
        match first_expected(found.drop_first(), expected) {
            Some(place) => Some(place + 1),
            None => None,
        }
    }
}

/// Where an expected surface is found, it is one, and no earlier surface is.
pub proof fn first_expected_is_the_first(found: Seq<Seq<char>>, expected: Seq<Seq<char>>)
    ensures
        first_expected(found, expected) is None <==> forall|i: int|
            0 <= i < found.len() ==> !expected.contains(#[trigger] found[i]),
        first_expected(found, expected) matches Some(place) ==> {
            &&& 0 <= place < found.len()
            &&& expected.contains(found[place])
            &&& forall|i: int| 0 <= i < place ==> !expected.contains(#[trigger] found[i])
        },
    decreases found.len(),
{
    if found.len() > 0 && !expected.contains(found[0]) {
        let rest = found.drop_first();
        first_expected_is_the_first(rest, expected);
        assert forall|i: int| 0 < i < found.len() implies found[i] == rest[i - 1] by {}
        if first_expected(rest, expected) is None {
            assert forall|i: int| 0 <= i < found.len() implies !expected.contains(
                #[trigger] found[i],
            ) by {
                if i > 0 {
                    assert(found[i] == rest[i - 1]);
                }
            }
        } else {
            let place = first_expected(rest, expected)->0;
            assert(found[place + 1] == rest[place]);
            assert forall|i: int| 0 <= i < place + 1 implies !expected.contains(
                #[trigger] found[i],
            ) by {
                if i > 0 {
                    assert(found[i] == rest[i - 1]);
                }
            }
        }
    }
}

proof fn first_expected_at(found: Seq<Seq<char>>, expected: Seq<Seq<char>>, place: int)
    requires
        0 <= place <= found.len(),
        forall|i: int| 0 <= i < place ==> !expected.contains(#[trigger] found[i]),
        place < found.len() ==> expected.contains(found[place]),
    ensures
        first_expected(found, expected) == (if place < found.len() {
            Some(place)
        } else {
            None
        }),
{
    first_expected_is_the_first(found, expected);
    if place < found.len() {
        let first = first_expected(found, expected);
        assert(first is Some);
        if first->0 < place {
            assert(!expected.contains(found[first->0]));
        }
    }
}

/// The place of the first surface that is one of the expected ones.
pub fn position_of_expected(found: &[String], expected: &[String]) -> (result: Option<usize>)
    ensures
        result is Some <==> first_expected(texts(found@), texts(expected@)) is Some,
        result matches Some(place) ==> first_expected(texts(found@), texts(expected@)) == Some(
            place as int,
        ),
{
    for index in 0..found.len()
        invariant
            forall|i: int|
                0 <= i < index ==> !texts(expected@).contains(#[trigger] texts(found@)[i]),
    {
        if holds_text(expected, found[index].as_str()) {
            proof {
                assert(texts(found@)[index as int] == found@[index as int]@);
                first_expected_at(texts(found@), texts(expected@), index as int);
            }
            return Some(index);
        }
        assert(texts(found@)[index as int] == found@[index as int]@);
    }
    proof {
        first_expected_at(texts(found@), texts(expected@), found@.len() as int);
    }
    None
}

/// The place of the first candidate with this surface.
pub fn position_of_surface(candidates: &[Candidate], surface: &str) -> (result: Option<usize>)
    ensures
        result is Some <==> first_expected(surfaces(candidates@), seq![surface@]) is Some,
        result matches Some(place) ==> first_expected(surfaces(candidates@), seq![surface@])
            == Some(place as int) && place < candidates@.len() && candidates@[place as int].surface@
            == surface@,
        result is Some <==> surfaces(candidates@).contains(surface@),
{
    let ghost expected = seq![surface@];
    assert(forall|text: Seq<char>| expected.contains(text) ==> text == surface@);
    assert(expected[0] == surface@);
    for index in 0..candidates.len()
        invariant
            expected == seq![surface@],
            forall|text: Seq<char>| expected.contains(text) ==> text == surface@,
            expected[0] == surface@,
            forall|i: int|
                0 <= i < index ==> !expected.contains(#[trigger] surfaces(candidates@)[i]),
            forall|i: int| 0 <= i < index ==> surfaces(candidates@)[i] != surface@,
    {
        assert(surfaces(candidates@)[index as int] == candidates@[index as int].surface@);
        if same_text(candidates[index].surface.as_str(), surface) {
            proof {
                first_expected_at(surfaces(candidates@), expected, index as int);
            }
            return Some(index);
        }
    }
    proof {
        first_expected_at(surfaces(candidates@), expected, candidates@.len() as int);
    }
    None
}

// ---------------------------------------------------------------------------
// Cost gaps
// ---------------------------------------------------------------------------

/// The difference of two costs, kept within 32 bits.
pub open spec fn cost_difference(left: int, right: int) -> int {
    if left - right > i32::MAX {
        i32::MAX as int
    } else if left - right < i32::MIN {
        i32::MIN as int
    } else {
        left - right
    }
}

/// By how much the first cost exceeds the second; zero if it does not.
pub open spec fn cost_gap(left: int, right: int) -> int {
    if cost_difference(left, right) < 0 {
        0
    } else {
        cost_difference(left, right)
    }
}

pub fn difference_of_costs(left: i32, right: i32) -> (result: i32)
    ensures
        result == cost_difference(left as int, right as int),
{
    let difference: i64 = left as i64 - right as i64;
    if difference > i32::MAX as i64 {
        i32::MAX
    } else if difference < i32::MIN as i64 {
        i32::MIN
    } else {
        difference as i32
    }
}

pub fn gap_of_costs(left: i32, right: i32) -> (result: i32)
    ensures
        result == cost_gap(left as int, right as int),
{
    let difference: i32 = difference_of_costs(left, right);
    if difference < 0 {
        0
    } else {
        difference
    }
}

/// The number of values from `index` on, before `limit`, that cost no more than `gap` over the
/// first value, counted up to the first one that does not; plus `index`.
pub open spec fn affordable_from(values: Seq<int>, limit: int, gap: int, index: int) -> int
    decreases values.len() - index,
{
    if 0 <= index < values.len() && index < limit && cost_gap(values[index], values[0]) <= gap {
        affordable_from(values, limit, gap, index + 1)
    } else {
        index
    }
}

/// The number of leading values that cost no more than `gap` over the first one, at most
/// `limit`.
pub open spec fn affordable(values: Seq<int>, limit: int, gap: int) -> int {
    affordable_from(values, limit, gap, 0)
}

/// A wider gap or a higher limit never leaves fewer candidates.
pub proof fn affordable_grows_with_gap_and_limit(
    values: Seq<int>,
    limit: int,
    gap: int,
    higher_limit: int,
    wider_gap: int,
    index: int,
)
    requires
        limit <= higher_limit,
        gap <= wider_gap,
        0 <= index,
    ensures
        affordable_from(values, limit, gap, index) <= affordable_from(
            values,
            higher_limit,
            wider_gap,
            index,
        ),
        index <= affordable_from(values, limit, gap, index),
    decreases values.len() - index,
{
    if index < values.len() && index < higher_limit {
        affordable_grows_with_gap_and_limit(
            values,
            limit,
            gap,
            higher_limit,
            wider_gap,
            index + 1,
        );
    }
}

/// The candidates that are kept are at most `limit`, all within the gap, and the next one is
/// left out because of the limit, the gap or the end.
pub proof fn affordable_is_the_longest_start(values: Seq<int>, limit: int, gap: int, index: int)
    requires
        0 <= index <= values.len(),
        index <= limit,
    ensures
        index <= affordable_from(values, limit, gap, index) <= values.len(),
        affordable_from(values, limit, gap, index) <= limit,
        forall|i: int|
            index <= i < affordable_from(values, limit, gap, index) ==> cost_gap(
                #[trigger] values[i],
                values[0],
            ) <= gap,
        affordable_from(values, limit, gap, index) < values.len() && affordable_from(
            values,
            limit,
            gap,
            index,
        ) < limit ==> cost_gap(
            values[affordable_from(values, limit, gap, index)],
            values[0],
        ) > gap,
    decreases values.len() - index,
{
    if index < values.len() && index < limit && cost_gap(values[index], values[0]) <= gap {
        affordable_is_the_longest_start(values, limit, gap, index + 1);
    }
}

/// The number of leading candidates within the limit and the gap; a limit or a gap that is not
/// given does not bound them.
pub open spec fn candidate_prefix(values: Seq<int>, limit: Option<usize>, gap: Option<i32>) -> int {
    affordable(
        values,
        match limit {
            Some(limit) => limit as int,
            None => usize::MAX as int,
        },
        match gap {
            Some(gap) => gap as int,
            None => i32::MAX as int,
        },
    )
}

/// The number of leading candidates to score.
pub fn neural_candidate_prefix_len(
    candidates: &[Candidate],
    max_candidates: Option<usize>,
    max_candidate_cost_gap: Option<i32>,
) -> (result: usize)
    ensures
        result == candidate_prefix(costs(candidates@), max_candidates, max_candidate_cost_gap),
        result <= candidates@.len(),
{
    let limit: usize = match max_candidates {
        Some(limit) => limit,
        None => usize::MAX,
    };
    let gap: i32 = match max_candidate_cost_gap {
        Some(gap) => gap,
        None => i32::MAX,
    };
    let ghost values = costs(candidates@);
    let mut index: usize = 0;
    while index < candidates.len() && index < limit && gap_of_costs(
        candidates[index].cost,
        candidates[0].cost,
    ) <= gap
        invariant
            values == costs(candidates@),
            index <= candidates@.len(),
            affordable_from(values, limit as int, gap as int, index as int) == affordable(
                values,
                limit as int,
                gap as int,
            ),
        decreases candidates@.len() - index,
    {
        index += 1;
    }
    index
}

/// The number of characters from which on an input counts as long, with the value for long
/// inputs, replaces the usual value.
pub open spec fn for_length<T>(
    length: nat,
    usual: Option<T>,
    long_from: Option<usize>,
    long: Option<T>,
) -> Option<T> {
    match (long_from, long) {
        (Some(minimum), Some(value)) if length >= minimum => Some(value),
        _ => usual,
    }
}

/// How many candidates of this input may be scored.
pub fn neural_candidate_limit(
    input: &str,
    max_candidates: Option<usize>,
    long_input_min_characters: Option<usize>,
    long_input_max_candidates: Option<usize>,
) -> (result: Option<usize>)
    ensures
        result == for_length(
            input@.len(),
            max_candidates,
            long_input_min_characters,
            long_input_max_candidates,
        ),
{
    let length: usize = character_count(input);
    match (long_input_min_characters, long_input_max_candidates) {
        (Some(minimum), Some(maximum)) if length >= minimum => Some(maximum),
        _ => max_candidates,
    }
}

/// By how much a scored candidate of this input may cost more than the first one.
pub fn neural_candidate_cost_gap(
    input: &str,
    max_candidate_cost_gap: Option<i32>,
    long_input_min_characters: Option<usize>,
    long_input_max_candidate_cost_gap: Option<i32>,
) -> (result: Option<i32>)
    ensures
        result == for_length(
            input@.len(),
            max_candidate_cost_gap,
            long_input_min_characters,
            long_input_max_candidate_cost_gap,
        ),
{
    let length: usize = character_count(input);
    match (long_input_min_characters, long_input_max_candidate_cost_gap) {
        (Some(minimum), Some(maximum)) if length >= minimum => Some(maximum),
        _ => max_candidate_cost_gap,
    }
}

/// The least of the values from the second on.
pub open spec fn least_alternative(values: Seq<int>) -> int
    recommends
        values.len() >= 2,
    decreases values.len(),
{
    if values.len() <= 2 {
        values[1]
    } else {
        let rest = least_alternative(values.drop_last());
        if values.last() < rest {
            values.last()
        } else {
            rest
        }
    }
}

/// By how much the cheapest alternative costs more than the first candidate.
pub open spec fn base_gap(values: Seq<int>) -> Option<int> {
    if values.len() < 2 {
        None
    } else {
        Some(cost_gap(least_alternative(values), values[0]))
    }
}

pub fn base_cost_gap(candidates: &[Candidate]) -> (result: Option<i32>)
    ensures
        result is Some <==> base_gap(costs(candidates@)) is Some,
        result matches Some(gap) ==> base_gap(costs(candidates@)) == Some(gap as int),
{
    if candidates.len() < 2 {
        return None;
    }
    let ghost values = costs(candidates@);
    let mut least: i32 = candidates[1].cost;
    assert(values.take(2)[1] == values[1]);
    for index in 2..candidates.len()
        invariant
            candidates@.len() >= 2,
            values == costs(candidates@),
            least == least_alternative(values.take(index as int)),
    {
        assert(values.take(index + 1).drop_last() =~= values.take(index as int));
        if candidates[index].cost < least {
            least = candidates[index].cost;
        }
    }
    assert(values.take(values.len() as int) =~= values);
    Some(gap_of_costs(least, candidates[0].cost))
}

/// Whether the candidates are close enough for a model to decide: always if no gap is given,
/// else if an alternative lies within it.
pub open spec fn is_close(values: Seq<int>, max_cost_gap: Option<i32>) -> bool {
    match max_cost_gap {
        None => true,
        Some(maximum) => base_gap(values) is Some && base_gap(values)->0 <= maximum,
    }
}

pub fn should_score_neurally(candidates: &[Candidate], max_cost_gap: Option<i32>) -> (result: bool)
    ensures
        result == is_close(costs(candidates@), max_cost_gap),
{
    match max_cost_gap {
        None => true,
        Some(maximum) => match base_cost_gap(candidates) {
            Some(gap) => gap <= maximum,
            None => false,
        },
    }
}

// ---------------------------------------------------------------------------
// Order by score
// ---------------------------------------------------------------------------

/// A candidate's place and its score. Scores are compared as integers: a score stands for the
/// place of a number in the total order of all numbers.
#[derive(Clone, Copy, Debug, PartialEq, Eq, Structural)]
pub struct Scored {
    pub score: i64,
    pub place: usize,
}

/// The higher score first; of equal scores the earlier place.
pub open spec fn scored_before(left: Scored, right: Scored) -> bool {
    left.score > right.score || (left.score == right.score && left.place < right.place)
}

impl Ranked for Scored {
    open spec fn ranks_before(&self, other: &Self) -> bool {
        scored_before(*self, *other)
    }

    proof fn ranking_laws(first: &Self, second: &Self, third: &Self) {
    }

    fn comes_before(&self, other: &Self) -> (result: bool) {
        self.score > other.score || (self.score == other.score && self.place < other.place)
    }
}

/// The scores with their places.
pub open spec fn with_places(scores: Seq<i64>) -> Seq<Scored> {
    Seq::new(scores.len(), |i: int| Scored { score: scores[i], place: i as usize })
}

/// The scores with their places, best first, in the order of the places where they are equal.
pub open spec fn best_first(scores: Seq<i64>) -> Seq<Scored> {
    with_places(scores).sort_by(|left: Scored, right: Scored| !scored_before(right, left))
}

proof fn scored_order_is_total()
    ensures
        total_ordering(|left: Scored, right: Scored| !scored_before(right, left)),
{
}

/// The places of the scores, best first, are each named exactly once, and a later place in the
/// list has a lower score, or an equal score and a later place.
pub proof fn best_first_orders_all_places(scores: Seq<i64>)
    ensures
        best_first(scores).to_multiset() == with_places(scores).to_multiset(),
        best_first(scores).len() == scores.len(),
        forall|i: int, j: int|
            0 <= i < j < scores.len() ==> !scored_before(
                #[trigger] best_first(scores)[j],
                #[trigger] best_first(scores)[i],
            ),
{
    let order = |left: Scored, right: Scored| !scored_before(right, left);
    scored_order_is_total();
    with_places(scores).lemma_sort_by_ensures(order);
    let ranked = best_first(scores);
    assert(ranked.to_multiset().len() == with_places(scores).to_multiset().len());
    assert forall|i: int, j: int| 0 <= i < j < scores.len() implies !scored_before(
        #[trigger] ranked[j],
        #[trigger] ranked[i],
    ) by {
        assert(order(ranked[i], ranked[j]));
    }
}

/// Every entry of the ranking is a score at its own place.
pub proof fn best_first_keeps_the_scores(scores: Seq<i64>)
    requires
        scores.len() <= usize::MAX,
    ensures
        forall|i: int|
            0 <= i < scores.len() ==> (#[trigger] best_first(scores)[i]).place < scores.len()
                && best_first(scores)[i].score == scores[best_first(scores)[i].place as int],
{
    best_first_orders_all_places(scores);
    let ranked = best_first(scores);
    let all = with_places(scores);
    assert forall|i: int| 0 <= i < scores.len() implies (#[trigger] ranked[i]).place < scores.len()
        && ranked[i].score == scores[ranked[i].place as int] by {
        assert(ranked.contains(ranked[i]));
        assert(ranked.to_multiset().contains(ranked[i]));
        assert(all.to_multiset().contains(ranked[i]));
        assert(all.contains(ranked[i]));
    }
}

/// The scores with their places, best first.
pub fn ranked_by_score(scores: &[i64]) -> (result: Vec<Scored>)
    ensures
        result@ == best_first(scores@),
        scores@.len() <= usize::MAX,
{
    let count: usize = scores.len();
    let mut all: Vec<Scored> = Vec::new();
    for place in 0..count
        invariant
            count == scores@.len(),
            all@ == with_places(scores@).take(place as int),
    {
        all.push(Scored { score: scores[place], place });
        assert(all@ =~= with_places(scores@).take(place + 1));
    }
    assert(all@ =~= with_places(scores@));
    let result: Vec<Scored> = sorted(all);
    proof {
        let order = |left: Scored, right: Scored| !scored_before(right, left);
        scored_order_is_total();
        with_places(scores@).lemma_sort_by_ensures(order);
        assert(sorted_by(result@, order)) by {
            assert forall|i: int, j: int| 0 <= i < j < result@.len() implies #[trigger] order(
                result@[i],
                result@[j],
            ) by {
                assert(!result@[j].ranks_before(&result@[i]));
            }
        }
        lemma_sorted_unique(result@, best_first(scores@), order);
    }
    result
}

/// The place of the best score; of equal scores the last one.
pub open spec fn last_best(scores: Seq<i64>) -> int
    recommends
        scores.len() > 0,
    decreases scores.len(),
{
    if scores.len() <= 1 {
        0
    } else {
        let best = last_best(scores.drop_last());
        if scores.last() >= scores[best] {
            scores.len() - 1
        } else {
            best
        }
    }
}

/// No score is higher than the best one, and every later one is lower.
pub proof fn last_best_is_the_greatest(scores: Seq<i64>)
    requires
        scores.len() > 0,
    ensures
        0 <= last_best(scores) < scores.len(),
        forall|i: int|
            0 <= i < scores.len() ==> #[trigger] scores[i] <= scores[last_best(scores)],
        forall|i: int|
            last_best(scores) < i < scores.len() ==> (#[trigger] scores[i]) < scores[last_best(
                scores,
            )],
    decreases scores.len(),
{
    if scores.len() > 1 {
        let rest = scores.drop_last();
        last_best_is_the_greatest(rest);
        assert forall|i: int| 0 <= i < scores.len() implies #[trigger] scores[i]
            <= scores[last_best(scores)] by {
            if i < rest.len() {
                assert(rest[i] <= rest[last_best(rest)]);
            }
        }
        assert forall|i: int| last_best(scores) < i < scores.len() implies (
        #[trigger] scores[i]) < scores[last_best(scores)] by {
            if i < rest.len() {
                assert(rest[i] < rest[last_best(rest)]);
            }
        }
    }
}

/// The place of the best score; of equal scores the last one.
pub fn best_place(scores: &[i64]) -> (result: Option<usize>)
    ensures
        scores@.len() == 0 ==> result is None,
        scores@.len() > 0 ==> result == Some(last_best(scores@) as usize) && last_best(scores@)
            < scores@.len() && last_best(scores@) >= 0,
{
    if scores.len() == 0 {
        return None;
    }
    let mut best: usize = 0;
    for index in 1..scores.len()
        invariant
            scores@.len() > 0,
            best == last_best(scores@.take(index as int)),
            best < index,
    {
        assert(scores@.take(index + 1).drop_last() =~= scores@.take(index as int));
        if scores[index] >= scores[best] {
            best = index;
        }
    }
    assert(scores@.take(scores@.len() as int) =~= scores@);
    Some(best)
}

/// The order of the candidates after scoring: the scored ones best first, behind them the
/// others as they were. If another candidate than the first comes out on top without the
/// required lead over the first, nothing moves.
pub open spec fn rescored_places(count: nat, scores: Seq<i64>, leads: Seq<bool>) -> Seq<int> {
    let scored = if count <= scores.len() {
        count
    } else {
        scores.len()
    };
    let ranked = best_first(scores.take(scored as int));
    if scored > 0 && ranked[0].place != 0 && !leads[ranked[0].place as int] {
        Seq::new(count, |i: int| i)
    } else {
        Seq::new(
            count,
            |i: int|
                if i < scored {
                    ranked[i].place as int
                } else {
                    i
                },
        )
    }
}

/// Whether the list names the place.
pub open spec fn names_place(ranked: Seq<Scored>, place: int) -> bool {
    exists|i: int| 0 <= i < ranked.len() && (#[trigger] ranked[i]).place == place
}

/// The order by score names every place once, each with its own score; of two neighbours the first
/// has the higher score, or an equal score and the earlier place.
pub proof fn best_first_is_a_descending_order_of_all_places(scores: Seq<i64>)
    requires
        scores.len() <= usize::MAX,
    ensures
        best_first(scores).len() == scores.len(),
        forall|i: int|
            0 <= i < scores.len() ==> (#[trigger] best_first(scores)[i]).place < scores.len()
                && best_first(scores)[i].score == scores[best_first(scores)[i].place as int],
        forall|i: int, j: int|
            0 <= i < j < scores.len() ==> {
                let left = #[trigger] best_first(scores)[i];
                let right = #[trigger] best_first(scores)[j];
                left.score > right.score || (left.score == right.score && left.place < right.place)
            },
        forall|place: int|
            0 <= place < scores.len() ==> #[trigger] names_place(best_first(scores), place),
{
    best_first_orders_all_places(scores);
    best_first_keeps_the_scores(scores);
    let ranked = best_first(scores);
    let all = with_places(scores);
    assert(all.no_duplicates()) by {
        assert forall|i: int, j: int| 0 <= i < all.len() && 0 <= j < all.len() && i
            != j implies all[i] != all[j] by {
            assert(all[i].place == i && all[j].place == j);
        }
    }
    all.lemma_multiset_has_no_duplicates();
    ranked.lemma_multiset_has_no_duplicates_conv();
    assert forall|i: int, j: int| 0 <= i < j < scores.len() implies {
        let left = #[trigger] ranked[i];
        let right = #[trigger] ranked[j];
        left.score > right.score || (left.score == right.score && left.place < right.place)
    } by {
        assert(!scored_before(ranked[j], ranked[i]));
        assert(ranked[i] != ranked[j]);
    }
    assert forall|place: int| 0 <= place < scores.len() implies #[trigger] names_place(
        ranked,
        place,
    ) by {
        assert(all.contains(all[place]));
        assert(all.to_multiset().contains(all[place]));
        assert(ranked.to_multiset().contains(all[place]));
        assert(ranked.contains(all[place]));
        let i = choose|i: int| 0 <= i < ranked.len() && ranked[i] == all[place];
        assert(ranked[i].place == place);
    }
}

/// After scoring every candidate stands exactly once in the list, and those without a score stay
/// where they were. Where `top` is the first of the highest scores: if it is another candidate than
/// the first and lacks the required lead, nothing moves; otherwise it comes out first, and of any
/// two scored candidates the first in the list has the higher score, or an equal score and the
/// earlier place.
pub proof fn scored_candidates_come_out_best_first(
    count: nat,
    scores: Seq<i64>,
    leads: Seq<bool>,
    top: int,
)
    requires
        count <= usize::MAX,
        leads.len() >= scores.len(),
        0 <= top < count,
        top < scores.len(),
        forall|k: int| 0 <= k < count && k < scores.len() ==> #[trigger] scores[k] <= scores[top],
        forall|k: int| 0 <= k < top ==> (#[trigger] scores[k]) < scores[top],
    ensures
        ({
            let places = rescored_places(count, scores, leads);
            &&& places.len() == count
            &&& forall|i: int| 0 <= i < count ==> 0 <= #[trigger] places[i] < count
            &&& forall|i: int, j: int| 0 <= i < j < count ==> #[trigger] places[i] != #[trigger] places[j]
            &&& forall|i: int| scores.len() <= i < count ==> #[trigger] places[i] == i
            &&& top != 0 && !leads[top] ==> forall|i: int| 0 <= i < count ==> #[trigger] places[i] == i
            &&& top == 0 || leads[top] ==> {
                &&& places[0] == top
                &&& forall|i: int, j: int|
                    0 <= i < j < count && j < scores.len() ==> {
                        let left = #[trigger] places[i];
                        let right = #[trigger] places[j];
                        scores[left] > scores[right] || (scores[left] == scores[right] && left
                            < right)
                    }
            }
        }),
{
    let scored: int = if count <= scores.len() {
        count as int
    } else {
        scores.len() as int
    };
    let compared = scores.take(scored);
    let ranked = best_first(compared);
    best_first_is_a_descending_order_of_all_places(compared);
    let best = ranked[0];
    assert(best.place < scored);
    assert(names_place(ranked, top));
    let at = choose|i: int| 0 <= i < ranked.len() && (#[trigger] ranked[i]).place == top;
    assert(best.place == top) by {
        assert(scores[best.place as int] <= scores[top]);
        if at != 0 {
            assert(ranked[0].score >= ranked[at].score);
            assert(ranked[at].score == scores[top]);
            if best.place > top {
                assert(ranked[0].score == ranked[at].score ==> ranked[0].place < ranked[at].place);
            }
        }
    }
    let places = rescored_places(count, scores, leads);
    if top == 0 || leads[top] {
        assert forall|i: int, j: int| 0 <= i < j < count implies #[trigger] places[i]
            != #[trigger] places[j] by {
            if j < scored {
                assert(ranked[i].score > ranked[j].score || ranked[i].place < ranked[j].place);
            } else if i < scored {
                assert(ranked[i].place < scored);
            }
        }
        assert forall|i: int, j: int| 0 <= i < j < count && j < scores.len() implies {
            let left = #[trigger] places[i];
            let right = #[trigger] places[j];
            scores[left] > scores[right] || (scores[left] == scores[right] && left < right)
        } by {
            assert(ranked[i].score == compared[ranked[i].place as int]);
            assert(ranked[j].score == compared[ranked[j].place as int]);
        }
    }
}

/// Without scores nothing moves.
pub proof fn without_scores_nothing_moves(count: nat, leads: Seq<bool>)
    ensures
        rescored_places(count, Seq::empty(), leads) == Seq::new(count, |i: int| i),
{
    assert(Seq::<i64>::empty().take(0) =~= Seq::<i64>::empty());
    assert(rescored_places(count, Seq::empty(), leads) =~= Seq::new(count, |i: int| i));
}

/// The surfaces in their order after scoring. `leads` says of each scored candidate whether it
/// leads the first one by the required margin.
pub fn rescored_surfaces(candidates: &[Candidate], scores: &[i64], leads: &[bool]) -> (result: Vec<
    String,
>)
    requires
        leads@.len() >= scores@.len(),
    ensures
        texts(result@) == rescored_places(candidates@.len(), scores@, leads@).map_values(
            |place: int| surfaces(candidates@)[place],
        ),
        result@.len() == candidates@.len(),
{
    let count: usize = candidates.len();
    let scored: usize = if count <= scores.len() {
        count
    } else {
        scores.len()
    };
    let mut compared: Vec<i64> = Vec::new();
    for index in 0..scored
        invariant
            scored <= scores@.len(),
            compared@ == scores@.take(index as int),
    {
        compared.push(scores[index]);
        assert(compared@ =~= scores@.take(index + 1));
    }
    let ranked: Vec<Scored> = ranked_by_score(compared.as_slice());
    proof {
        best_first_orders_all_places(compared@);
        best_first_keeps_the_scores(compared@);
    }
    let ghost places = rescored_places(candidates@.len(), scores@, leads@);
    let keeps_order: bool = scored > 0 && ranked[0].place != 0 && !leads[ranked[0].place];
    let mut result: Vec<String> = Vec::new();
    for index in 0..count
        invariant
            count == candidates@.len(),
            scored <= count,
            scored <= scores@.len(),
            ranked@ == best_first(scores@.take(scored as int)),
            ranked@.len() == scored,
            forall|i: int| 0 <= i < scored ==> (#[trigger] ranked@[i]).place < scored,
            keeps_order == (scored > 0 && ranked@[0].place != 0
                && !leads@[ranked@[0].place as int]),
            scored == (if count <= scores@.len() {
                count as nat
            } else {
                scores@.len()
            }),
            places == rescored_places(candidates@.len(), scores@, leads@),
            result@.len() == index,
            forall|i: int|
                0 <= i < index ==> (#[trigger] result@[i])@ == surfaces(candidates@)[places[i]],
    {
        let place: usize = if !keeps_order && index < scored {
            ranked[index].place
        } else {
            index
        };
        assert(places[index as int] == place);
        result.push(candidates[place].surface.clone());
    }
    assert(texts(result@) =~= places.map_values(|place: int| surfaces(candidates@)[place]));
    result
}

// ---------------------------------------------------------------------------
// What the limits mean
// ---------------------------------------------------------------------------

/// Costs differ by their difference, as far as 32 bits can hold it; a gap is never below zero.
pub proof fn gaps_are_differences_of_costs(left: int, right: int)
    ensures
        i32::MIN <= left - right <= i32::MAX ==> cost_difference(left, right) == left - right,
        left - right > i32::MAX ==> cost_difference(left, right) == i32::MAX,
        left - right < i32::MIN ==> cost_difference(left, right) == i32::MIN,
        0 <= left - right <= i32::MAX ==> cost_gap(left, right) == left - right,
        left <= right ==> cost_gap(left, right) == 0,
        left - right > i32::MAX ==> cost_gap(left, right) == i32::MAX,
{
}

/// The candidates that are scored stand at the beginning: each costs at most the gap more than the
/// first one, they are at most as many as the limit says, and the next one, if the limit allows it,
/// costs more. A limit or a gap that is not given leaves out nothing.
pub proof fn scored_candidates_are_close_to_the_first(
    values: Seq<int>,
    limit: Option<usize>,
    gap: Option<i32>,
)
    requires
        values.len() <= usize::MAX,
        forall|i: int| 0 <= i < values.len() ==> i32::MIN <= #[trigger] values[i] <= i32::MAX,
        gap matches Some(most) ==> 0 <= most < i32::MAX,
    ensures
        ({
            let count = candidate_prefix(values, limit, gap);
            &&& 0 <= count <= values.len()
            &&& limit matches Some(most) ==> count <= most
            &&& gap matches Some(most) ==> forall|i: int|
                0 <= i < count ==> #[trigger] values[i] - values[0] <= most
            &&& count < values.len() ==> (limit is Some && count == limit->0) || (gap is Some
                && values[count] - values[0] > gap->0)
        }),
{
    let most = match limit {
        Some(limit) => limit as int,
        None => usize::MAX as int,
    };
    let widest = match gap {
        Some(gap) => gap as int,
        None => i32::MAX as int,
    };
    affordable_is_the_longest_start(values, most, widest, 0);
    assert forall|i: int| 0 <= i < values.len() implies (cost_gap(#[trigger] values[i], values[0])
        <= widest <==> (gap is None || values[i] - values[0] <= widest)) by {
        assert(i32::MIN <= values[0] <= i32::MAX);
    }
}

/// From the given number of characters on the value for long inputs holds, if both are given; before
/// it, and without them, the usual one.
pub proof fn long_inputs_have_their_own_value<T>(
    length: nat,
    usual: Option<T>,
    long_from: Option<usize>,
    long: Option<T>,
)
    ensures
        long_from is Some && long is Some && length >= long_from->0 ==> for_length(
            length,
            usual,
            long_from,
            long,
        ) == long,
        long_from is None || long is None || length < long_from->0 ==> for_length(
            length,
            usual,
            long_from,
            long,
        ) == usual,
{
}

proof fn the_least_alternative_is_one_of_them(values: Seq<int>)
    requires
        values.len() >= 2,
    ensures
        forall|i: int| 1 <= i < values.len() ==> least_alternative(values) <= #[trigger] values[i],
        exists|i: int| 1 <= i < values.len() && #[trigger] values[i] == least_alternative(values),
    decreases values.len(),
{
    if values.len() == 2 {
        assert(values[1] == least_alternative(values));
    } else {
        let rest = values.drop_last();
        the_least_alternative_is_one_of_them(rest);
        assert forall|i: int| 1 <= i < values.len() implies least_alternative(values)
            <= #[trigger] values[i] by {
            if i < rest.len() {
                assert(rest[i] == values[i]);
            }
        }
        let i = choose|i: int| 1 <= i < rest.len() && #[trigger] rest[i] == least_alternative(rest);
        if values.last() < rest[i] {
            assert(values[values.len() - 1] == least_alternative(values));
        } else {
            assert(values[i] == least_alternative(values));
        }
    }
}

/// A model decides if no gap is given, and otherwise exactly if another candidate costs at most that
/// much more than the first one.
pub proof fn a_model_decides_between_close_candidates(values: Seq<int>, max_cost_gap: Option<i32>)
    requires
        forall|i: int| 0 <= i < values.len() ==> i32::MIN <= #[trigger] values[i] <= i32::MAX,
        max_cost_gap matches Some(most) ==> 0 <= most < i32::MAX,
    ensures
        max_cost_gap is None ==> is_close(values, max_cost_gap),
        max_cost_gap is Some ==> (is_close(values, max_cost_gap) <==> exists|i: int|
            1 <= i < values.len() && #[trigger] values[i] - values[0] <= max_cost_gap->0),
{
    if values.len() >= 2 {
        the_least_alternative_is_one_of_them(values);
        let least = least_alternative(values);
        let i = choose|i: int| 1 <= i < values.len() && #[trigger] values[i] == least;
        assert(i32::MIN <= values[0] <= i32::MAX);
        if max_cost_gap is Some && is_close(values, max_cost_gap) {
            assert(values[i] - values[0] <= max_cost_gap->0);
        }
    }
}

} // verus!
