//! Which corrections of a conversion are safe enough to take.

use vstd::prelude::*;

use crate::candidate::{affordable, cost_gap, costs, gap_of_costs, neural_candidate_prefix_len, Candidate};
use crate::edit::{
    bounded_regions, edits_between, has_bounded_regions, shortest_edits, substitution, Edit,
};
use crate::kana::{ideograph, is_ideograph};
use crate::text::{
    ascii_word, character_count, characters, holds_text, is_ascii_word, same_text, texts,
};

verus! {

/// A hiragana, an iteration mark of hiragana or the digraph ゟ.
pub open spec fn is_hiragana_letter(character: char) -> bool {
    let code = character as u32;
    0x3041 <= code <= 0x3096 || 0x309D <= code <= 0x309F
}

fn is_hiragana(character: char) -> (result: bool)
    ensures
        result == is_hiragana_letter(character),
{
    let code: u32 = character as u32;
    (0x3041 <= code && code <= 0x3096) || (0x309D <= code && code <= 0x309F)
}

/// Whether no kanji of `current` is written as a hiragana at the same place of `alternative`.
pub open spec fn keeps_kanji(current: Seq<char>, alternative: Seq<char>) -> bool {
    forall|i: int|
        0 <= i < current.len() && i < alternative.len() ==> !(is_ideograph(#[trigger] current[i])
            && is_hiragana_letter(alternative[i]))
}

pub fn preserves_kanji_from_hiragana_deconversion(current: &str, alternative: &str) -> (result:
    bool)
    ensures
        result == keeps_kanji(current@, alternative@),
{
    let shown: Vec<char> = characters(current);
    let offered: Vec<char> = characters(alternative);
    let count: usize = if shown.len() <= offered.len() {
        shown.len()
    } else {
        offered.len()
    };
    for index in 0..count
        invariant
            shown@ == current@,
            offered@ == alternative@,
            count <= shown@.len(),
            count <= offered@.len(),
            forall|i: int|
                0 <= i < index ==> !(is_ideograph(#[trigger] current@[i]) && is_hiragana_letter(
                    alternative@[i],
                )),
    {
        if ideograph(shown[index]) && is_hiragana(offered[index]) {
            assert(is_ideograph(current@[index as int]));
            return false;
        }
    }
    true
}

/// The ASCII letters and digits of the text, in order.
pub open spec fn ascii_part(text: Seq<char>) -> Seq<char>
    decreases text.len(),
{
    if text.len() == 0 {
        Seq::empty()
    } else if is_ascii_word(text.last()) {
        ascii_part(text.drop_last()).push(text.last())
    } else {
        ascii_part(text.drop_last())
    }
}

fn ascii_part_of(text: &str) -> (result: String)
    ensures
        result@ == ascii_part(text@),
{
    let letters: Vec<char> = characters(text);
    let mut result: String = String::new();
    assert(ascii_part(text@.take(0)) =~= Seq::<char>::empty());
    for index in 0..letters.len()
        invariant
            letters@ == text@,
            result@ == ascii_part(text@.take(index as int)),
    {
        assert(text@.take(index + 1).drop_last() =~= text@.take(index as int));
        assert(text@.take(index + 1).last() == letters@[index as int]);
        if ascii_word(letters[index]) {
            result.push(letters[index]);
        }
    }
    assert(text@.take(text@.len() as int) =~= text@);
    result
}

/// Whether both texts hold the same ASCII letters and digits in the same order.
pub fn preserves_ascii_alphanumerics(current: &str, alternative: &str) -> (result: bool)
    ensures
        result == (ascii_part(current@) == ascii_part(alternative@)),
{
    let shown: String = ascii_part_of(current);
    let offered: String = ascii_part_of(alternative);
    same_text(shown.as_str(), offered.as_str())
}

/// Whether the texts have the same length and differ exactly at the places from `first` to
/// `last`.
pub open spec fn differ_exactly(
    current: Seq<char>,
    alternative: Seq<char>,
    first: int,
    last: int,
) -> bool {
    &&& current.len() == alternative.len()
    &&& 0 <= first <= last < current.len()
    &&& forall|i: int|
        0 <= i < current.len() ==> ((#[trigger] current[i] != alternative[i]) <==> first <= i
            <= last)
}

/// Whether no ASCII letter or digit stands at the place in either text.
pub open spec fn spares_place(current: Seq<char>, alternative: Seq<char>, place: int) -> bool {
    !is_ascii_word(current[place]) && !is_ascii_word(alternative[place])
}

/// Whether the alternative replaces one run of at least one and at most `maximum` characters,
/// none of them an ASCII letter or digit before or after.
pub open spec fn is_local_substitution(
    current: Seq<char>,
    alternative: Seq<char>,
    maximum: nat,
) -> bool {
    exists|first: int, last: int| #[trigger]
        differ_exactly(current, alternative, first, last) && last - first + 1 <= maximum && forall|
            i: int,
        |
            first <= i <= last ==> #[trigger] spares_place(current, alternative, i)
}

pub fn bounded_local_substitution(
    current: &str,
    alternative: &str,
    maximum_changes: usize,
) -> (result: bool)
    ensures
        result == is_local_substitution(current@, alternative@, maximum_changes as nat),
{
    let shown: Vec<char> = characters(current);
    let offered: Vec<char> = characters(alternative);
    let count: usize = shown.len();
    if count != offered.len() {
        return false;
    }
    let mut first: usize = 0;
    while first < count && shown[first] == offered[first]
        invariant
            shown@ == current@,
            offered@ == alternative@,
            count == current@.len(),
            count == alternative@.len(),
            first <= count,
            forall|i: int| 0 <= i < first ==> #[trigger] current@[i] == alternative@[i],
        decreases count - first,
    {
        first += 1;
    }
    if first == count {
        assert forall|low: int, high: int| !#[trigger] differ_exactly(
            current@,
            alternative@,
            low,
            high,
        ) by {
            if differ_exactly(current@, alternative@, low, high) {
                assert(current@[low] == alternative@[low]);
            }
        }
        return false;
    }
    assert(current@[first as int] != alternative@[first as int]);
    let mut end: usize = first;
    let mut plain: bool = true;
    while end < count && shown[end] != offered[end]
        invariant
            shown@ == current@,
            offered@ == alternative@,
            count == current@.len(),
            count == alternative@.len(),
            first <= end <= count,
            forall|i: int| first <= i < end ==> #[trigger] current@[i] != alternative@[i],
            plain ==> forall|i: int|
                first <= i < end ==> #[trigger] spares_place(current@, alternative@, i),
            !plain ==> exists|i: int|
                first <= i < end && !#[trigger] spares_place(current@, alternative@, i),
        decreases count - end,
    {
        if ascii_word(shown[end]) || ascii_word(offered[end]) {
            plain = false;
            assert(!spares_place(current@, alternative@, end as int));
        }
        end += 1;
    }
    assert(first < end);
    let mut rest: usize = end;
    while rest < count && shown[rest] == offered[rest]
        invariant
            shown@ == current@,
            offered@ == alternative@,
            count == current@.len(),
            count == alternative@.len(),
            end <= rest <= count,
            forall|i: int| end <= i < rest ==> #[trigger] current@[i] == alternative@[i],
        decreases count - rest,
    {
        rest += 1;
    }
    let result: bool = rest == count && end - first <= maximum_changes && plain;
    proof {
        if rest == count {
            assert(differ_exactly(current@, alternative@, first as int, end - 1));
        }
        if is_local_substitution(current@, alternative@, maximum_changes as nat) {
            let (low, high) = choose|low: int, high: int| #[trigger]
                differ_exactly(current@, alternative@, low, high) && high - low + 1
                    <= maximum_changes && forall|i: int|
                    low <= i <= high ==> #[trigger] spares_place(current@, alternative@, i);
            assert(current@[low] != alternative@[low]);
            assert(current@[high] != alternative@[high]);
            if low < first {
                assert(current@[low] == alternative@[low]);
            }
            assert(low <= first <= high);
            assert(low == first);
            if end <= high {
                assert(current@[end as int] != alternative@[end as int]);
            }
            assert(current@[end - 1] != alternative@[end - 1]);
            assert(high == end - 1);
            if rest < count {
                assert(current@[rest as int] == alternative@[rest as int]);
            }
        }
    }
    result
}

/// The edits between two texts of one length that change each place on its own.
pub open spec fn place_edits(current: Seq<char>, alternative: Seq<char>) -> Seq<Edit> {
    Seq::new(
        current.len(),
        |i: int|
            if current[i] == alternative[i] {
                Edit::Match
            } else {
                substitution(current[i], alternative[i])
            },
    )
}

/// Whether the alternative replaces two to four runs of one or two characters, none of them an
/// ASCII letter or digit.
pub open spec fn is_multi_region_substitution(current: Seq<char>, alternative: Seq<char>) -> bool {
    current.len() == alternative.len() && has_bounded_regions(
        place_edits(current, alternative),
        2,
        4,
        2,
    )
}

pub fn bounded_multi_region_substitution(current: &str, alternative: &str) -> (result: bool)
    ensures
        result == is_multi_region_substitution(current@, alternative@),
{
    let shown: Vec<char> = characters(current);
    let offered: Vec<char> = characters(alternative);
    if shown.len() != offered.len() {
        return false;
    }
    let mut edits: Vec<Edit> = Vec::new();
    for index in 0..shown.len()
        invariant
            shown@ == current@,
            offered@ == alternative@,
            shown@.len() == offered@.len(),
            edits@ == place_edits(current@, alternative@).take(index as int),
    {
        if shown[index] == offered[index] {
            edits.push(Edit::Match);
        } else {
            edits.push(Edit::Substitute(shown[index], offered[index]));
        }
        assert(edits@.last() == place_edits(current@, alternative@)[index as int]);
        assert(edits@ =~= place_edits(current@, alternative@).take(index + 1));
    }
    assert(edits@ =~= place_edits(current@, alternative@));
    bounded_regions(edits.as_slice(), 2, 4, 2)
}

/// Whether the alternative is one or two characters shorter and a shortest way to it changes
/// two to four runs, each with at most four characters of either text, none of them an ASCII
/// letter or digit.
pub open spec fn is_surface_compression(current: Seq<char>, alternative: Seq<char>) -> bool {
    &&& current.len() > alternative.len()
    &&& current.len() - alternative.len() <= 2
    &&& has_bounded_regions(shortest_edits(current, alternative), 2, 4, 4)
}

pub fn bounded_multi_region_surface_compression(current: &str, alternative: &str) -> (result: bool)
    ensures
        result == is_surface_compression(current@, alternative@),
{
    let shown: Vec<char> = characters(current);
    let offered: Vec<char> = characters(alternative);
    if shown.len() <= offered.len() || shown.len() - offered.len() > 2 {
        return false;
    }
    let edits: Vec<Edit> = edits_between(shown.as_slice(), offered.as_slice());
    bounded_regions(edits.as_slice(), 2, 4, 4)
}

/// No correction is a change of one run and of several at once: the two rules exclude each
/// other wherever a run of one or two characters is replaced.
pub proof fn local_and_multi_region_substitutions_exclude_each_other(
    current: Seq<char>,
    alternative: Seq<char>,
    maximum: nat,
)
    requires
        is_local_substitution(current, alternative, maximum),
    ensures
        !is_multi_region_substitution(current, alternative),
{
    let (first, last) = choose|first: int, last: int| #[trigger]
        differ_exactly(current, alternative, first, last) && last - first + 1 <= maximum && forall|
            i: int,
        |
            first <= i <= last ==> #[trigger] spares_place(current, alternative, i);
    let edits = place_edits(current, alternative);
    one_run_is_one_region(current, alternative, first, last, edits.len() as int);
}

proof fn one_run_is_one_region(
    current: Seq<char>,
    alternative: Seq<char>,
    first: int,
    last: int,
    count: int,
)
    requires
        differ_exactly(current, alternative, first, last),
        0 <= count <= current.len(),
    ensures
        crate::edit::regions(place_edits(current, alternative), count) == (if count > first {
            1nat
        } else {
            0nat
        }),
    decreases count,
{
    if count > 0 {
        one_run_is_one_region(current, alternative, first, last, count - 1);
        let edits = place_edits(current, alternative);
        assert((edits[count - 1] is Match) == (current[count - 1] == alternative[count - 1]));
        if count > 1 {
            assert((edits[count - 2] is Match) == (current[count - 2] == alternative[count - 2]));
        }
    }
}

/// Whether the surface is one of the expected ones.
pub fn matches_expected(surface: &str, expected: &[String]) -> (result: bool)
    ensures
        result == texts(expected@).contains(surface@),
{
    holds_text(expected, surface)
}

// ---------------------------------------------------------------------------
// The candidates that a model scores
// ---------------------------------------------------------------------------

/// From this many characters on a reading is long.
pub const LONG_INPUT_CHARACTERS: usize = 9;

/// How many candidates are searched for.
pub const SEARCH_LIMIT: usize = 32;

/// How many candidates of a short reading are scored.
pub const SHORT_CANDIDATES: usize = 5;

/// How many candidates of a long reading are scored though the first one is far ahead.
pub const CONFIDENCE_BYPASS_CANDIDATES: usize = 8;

/// Up to this gap between the first two candidates a model decides.
pub const MAX_BASE_COST_GAP: i32 = 1_000;

/// By how much a scored candidate of a short reading may exceed the first one.
pub const SHORT_MAX_CANDIDATE_COST_GAP: i32 = 1_500;

/// By how much a scored candidate of a long reading may exceed the first one.
pub const LONG_MAX_CANDIDATE_COST_GAP: i32 = 2_500;

/// How many of the candidates are scored in the mode of high accuracy. None, if the first
/// candidate is far ahead, unless the reading is long and nothing stands behind it.
pub open spec fn high_accuracy_count(
    input: Seq<char>,
    right_context: Seq<char>,
    values: Seq<int>,
) -> int {
    let is_long = input.len() >= LONG_INPUT_CHARACTERS;
    if values.len() < 2 {
        0
    } else if cost_gap(values[1], values[0]) <= MAX_BASE_COST_GAP {
        if is_long {
            affordable(values, SEARCH_LIMIT as int, LONG_MAX_CANDIDATE_COST_GAP as int)
        } else {
            affordable(values, SHORT_CANDIDATES as int, SHORT_MAX_CANDIDATE_COST_GAP as int)
        }
    } else if is_long && right_context.len() == 0 {
        affordable(values, CONFIDENCE_BYPASS_CANDIDATES as int, LONG_MAX_CANDIDATE_COST_GAP as int)
    } else {
        0
    }
}

pub fn high_accuracy_candidate_count(
    input: &str,
    right_context: &str,
    candidates: &[Candidate],
) -> (result: usize)
    ensures
        result == high_accuracy_count(input@, right_context@, costs(candidates@)),
        result <= candidates@.len(),
{
    if candidates.len() < 2 {
        return 0;
    }
    let is_long: bool = character_count(input) >= LONG_INPUT_CHARACTERS;
    let normally_scored: bool = gap_of_costs(candidates[1].cost, candidates[0].cost)
        <= MAX_BASE_COST_GAP;
    let bypasses_confidence: bool = is_long && right_context.is_empty() && !normally_scored;
    if !normally_scored && !bypasses_confidence {
        return 0;
    }
    let limit: usize = if bypasses_confidence {
        CONFIDENCE_BYPASS_CANDIDATES
    } else if is_long {
        SEARCH_LIMIT
    } else {
        SHORT_CANDIDATES
    };
    let maximum_gap: i32 = if is_long {
        LONG_MAX_CANDIDATE_COST_GAP
    } else {
        SHORT_MAX_CANDIDATE_COST_GAP
    };
    neural_candidate_prefix_len(candidates, Some(limit), Some(maximum_gap))
}

// ---------------------------------------------------------------------------
// What the rules on changes mean
// ---------------------------------------------------------------------------

/// The number of runs of differing places that start among the first `count` places.
pub open spec fn differing_runs(current: Seq<char>, alternative: Seq<char>, count: int) -> nat
    decreases count,
{
    if count <= 0 {
        0
    } else if current[count - 1] != alternative[count - 1] && (count == 1 || current[count - 2]
        == alternative[count - 2]) {
        differing_runs(current, alternative, count - 1) + 1
    } else {
        differing_runs(current, alternative, count - 1)
    }
}

/// Whether the texts differ at three places in a row.
pub open spec fn differ_thrice(current: Seq<char>, alternative: Seq<char>, place: int) -> bool {
    current[place] != alternative[place] && current[place + 1] != alternative[place + 1] && current[
    place + 2] != alternative[place + 2]
}

proof fn place_edits_show_the_differences(current: Seq<char>, alternative: Seq<char>, count: int)
    requires
        current.len() == alternative.len(),
        0 <= count <= current.len(),
    ensures
        crate::edit::regions(place_edits(current, alternative), count) == differing_runs(
            current,
            alternative,
            count,
        ),
    decreases count,
{
    if count > 0 {
        place_edits_show_the_differences(current, alternative, count - 1);
        let edits = place_edits(current, alternative);
        assert((edits[count - 1] is Match) == (current[count - 1] == alternative[count - 1]));
        if count > 1 {
            assert((edits[count - 2] is Match) == (current[count - 2] == alternative[count - 2]));
        }
    }
}

proof fn runs_of_places(current: Seq<char>, alternative: Seq<char>, index: int)
    requires
        current.len() == alternative.len(),
        0 <= index < current.len(),
    ensures
        ({
            let edits = place_edits(current, alternative);
            let run = crate::edit::source_run(edits, index);
            &&& run == crate::edit::target_run(edits, index)
            &&& current[index] == alternative[index] ==> run == 0
            &&& current[index] != alternative[index] ==> run == 1 + (if index == 0 {
                0nat
            } else {
                crate::edit::source_run(edits, index - 1)
            })
        }),
    decreases index,
{
    let edits = place_edits(current, alternative);
    if index > 0 {
        runs_of_places(current, alternative, index - 1);
    } else {
        assert(crate::edit::source_run(edits, -1) == 0);
        assert(crate::edit::target_run(edits, -1) == 0);
    }
}

/// An alternative changes several runs exactly if it has the same length, differs in two to four
/// runs of places, nowhere at three places in a row, and nowhere at an ASCII letter or digit of
/// either text.
pub proof fn several_runs_are_two_to_four_short_ones(current: Seq<char>, alternative: Seq<char>)
    ensures
        is_multi_region_substitution(current, alternative) <==> {
            &&& current.len() == alternative.len()
            &&& 2 <= differing_runs(current, alternative, current.len() as int) <= 4
            &&& forall|i: int|
                0 <= i < current.len() - 2 ==> !#[trigger] differ_thrice(current, alternative, i)
            &&& forall|i: int|
                0 <= i < current.len() && #[trigger] current[i] != alternative[i]
                    ==> !is_ascii_word(current[i]) && !is_ascii_word(alternative[i])
        },
{
    if current.len() == alternative.len() {
        let edits = place_edits(current, alternative);
        place_edits_show_the_differences(current, alternative, current.len() as int);
        assert forall|i: int| 0 <= i < current.len() implies (crate::edit::spares_ascii(
            #[trigger] edits[i],
        ) <==> (current[i] != alternative[i] ==> !is_ascii_word(current[i]) && !is_ascii_word(
            alternative[i],
        ))) by {}
        if forall|i: int|
            0 <= i < current.len() && #[trigger] current[i] != alternative[i] ==> !is_ascii_word(
                current[i],
            ) && !is_ascii_word(alternative[i]) {
            assert forall|i: int| 0 <= i < edits.len() implies crate::edit::spares_ascii(
                #[trigger] edits[i],
            ) by {
                assert(current[i] != alternative[i] ==> !is_ascii_word(current[i]));
            }
        }
        if is_multi_region_substitution(current, alternative) {
            assert forall|i: int| 0 <= i < current.len() && #[trigger] current[i]
                != alternative[i] implies !is_ascii_word(current[i]) && !is_ascii_word(
                alternative[i],
            ) by {
                assert(crate::edit::spares_ascii(edits[i]));
            }
            assert forall|i: int| 0 <= i < current.len() - 2 implies !#[trigger] differ_thrice(
                current,
                alternative,
                i,
            ) by {
                runs_of_places(current, alternative, i);
                runs_of_places(current, alternative, i + 1);
                runs_of_places(current, alternative, i + 2);
                assert(crate::edit::source_run(edits, i + 2) <= 2);
            }
        }
        if forall|i: int|
            0 <= i < current.len() - 2 ==> !#[trigger] differ_thrice(current, alternative, i) {
            assert forall|i: int| 0 <= i < edits.len() implies #[trigger] crate::edit::source_run(
                edits,
                i,
            ) <= 2 && crate::edit::target_run(edits, i) <= 2 by {
                runs_of_places(current, alternative, i);
                if i >= 1 {
                    runs_of_places(current, alternative, i - 1);
                }
                if i >= 2 {
                    runs_of_places(current, alternative, i - 2);
                    assert(!differ_thrice(current, alternative, i - 2));
                }
            }
        }
    }
}

/// A compression leaves out one or two characters, and the way to it has two to four runs of at most
/// four characters on either side.
pub proof fn a_compression_leaves_out_one_or_two_characters(
    current: Seq<char>,
    alternative: Seq<char>,
)
    ensures
        is_surface_compression(current, alternative) ==> 1 <= current.len() - alternative.len() <= 2,
        1 <= current.len() - alternative.len() <= 2 ==> (is_surface_compression(current, alternative)
            <==> has_bounded_regions(shortest_edits(current, alternative), 2, 4, 4)),
{
}

/// Up to a gap of 1000 between the first two candidates up to five candidates of a short reading are
/// scored, within a gap of 1500, and up to 32 of a reading from nine characters on, within a gap of
/// 2500. Beyond it a long reading with nothing behind it has up to eight scored, within a gap of
/// 2500, and every other one none.
pub proof fn scored_candidates_depend_on_length_and_gap(
    input: Seq<char>,
    right_context: Seq<char>,
    values: Seq<int>,
)
    requires
        forall|i: int| 0 <= i < values.len() ==> i32::MIN <= #[trigger] values[i] <= i32::MAX,
    ensures
        ({
            let count = high_accuracy_count(input, right_context, values);
            let close = values.len() >= 2 && values[1] - values[0] <= 1000;
            let (most, gap) = if input.len() < 9 {
                (5int, 1500int)
            } else if close {
                (32int, 2500int)
            } else {
                (8int, 2500int)
            };
            &&& values.len() < 2 ==> count == 0
            &&& !close && (input.len() < 9 || right_context.len() > 0) ==> count == 0
            &&& values.len() >= 2 && (close || (input.len() >= 9 && right_context.len() == 0)) ==> {
                &&& 1 <= count <= values.len()
                &&& count <= most
                &&& forall|i: int| 0 <= i < count ==> #[trigger] values[i] - values[0] <= gap
                &&& count < values.len() && count < most ==> values[count] - values[0] > gap
            }
        }),
{
    if values.len() >= 2 {
        assert(i32::MIN <= values[0] <= i32::MAX && i32::MIN <= values[1] <= i32::MAX);
        crate::candidate::affordable_is_the_longest_start(values, 5, 1500, 0);
        crate::candidate::affordable_is_the_longest_start(values, 32, 2500, 0);
        crate::candidate::affordable_is_the_longest_start(values, 8, 2500, 0);
        one_candidate_is_affordable(values, 5, 1500);
        one_candidate_is_affordable(values, 32, 2500);
        one_candidate_is_affordable(values, 8, 2500);
        assert forall|i: int, gap: int| 0 <= i < values.len() && (gap == 1500 || gap
            == 2500) implies (#[trigger] cost_gap_within(values, i, gap) <==> values[i] - values[0]
            <= gap) by {
            assert(i32::MIN <= values[i] <= i32::MAX);
        }
        let count = high_accuracy_count(input, right_context, values);
        assert forall|i: int| 0 <= i < values.len() implies cost_gap_within(
            values,
            i,
            1500,
        ) == (#[trigger] values[i] - values[0] <= 1500) && cost_gap_within(values, i, 2500) == (
        values[i] - values[0] <= 2500) by {}
        if 0 <= count < values.len() {
            assert(cost_gap_within(values, count, 1500) == (values[count] - values[0] <= 1500));
        }
    }
}

spec fn cost_gap_within(values: Seq<int>, index: int, gap: int) -> bool {
    cost_gap(values[index], values[0]) <= gap
}

proof fn one_candidate_is_affordable(values: Seq<int>, limit: int, gap: int)
    requires
        values.len() > 0,
        limit > 0,
        gap >= 0,
    ensures
        affordable(values, limit, gap) >= 1,
{
    crate::candidate::affordable_grows_with_gap_and_limit(values, limit, gap, limit, gap, 1);
}

} // verus!
