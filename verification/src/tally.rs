//! Counting what a change improves and what it spoils.

use vstd::prelude::*;

use crate::text::{holds_text, texts};

verus! {

/// Whether an item was right before a change and whether it is right after it.
#[derive(Clone, Copy, Debug, PartialEq, Eq, Structural)]
pub struct Comparison {
    pub before: bool,
    pub after: bool,
}

/// How many items are right after a change, how many became right and how many became wrong.
#[derive(Clone, Copy, Debug, PartialEq, Eq, Structural)]
pub struct Tally {
    pub correct: usize,
    pub improvements: usize,
    pub regressions: usize,
}

pub open spec fn count_correct(comparisons: Seq<Comparison>) -> nat
    decreases comparisons.len(),
{
    if comparisons.len() == 0 {
        0
    } else {
        count_correct(comparisons.drop_last()) + (if comparisons.last().after {
            1nat
        } else {
            0
        })
    }
}

pub open spec fn count_correct_before(comparisons: Seq<Comparison>) -> nat
    decreases comparisons.len(),
{
    if comparisons.len() == 0 {
        0
    } else {
        count_correct_before(comparisons.drop_last()) + (if comparisons.last().before {
            1nat
        } else {
            0
        })
    }
}

pub open spec fn count_improvements(comparisons: Seq<Comparison>) -> nat
    decreases comparisons.len(),
{
    if comparisons.len() == 0 {
        0
    } else {
        count_improvements(comparisons.drop_last()) + (if !comparisons.last().before
            && comparisons.last().after {
            1nat
        } else {
            0
        })
    }
}

pub open spec fn count_regressions(comparisons: Seq<Comparison>) -> nat
    decreases comparisons.len(),
{
    if comparisons.len() == 0 {
        0
    } else {
        count_regressions(comparisons.drop_last()) + (if comparisons.last().before
            && !comparisons.last().after {
            1nat
        } else {
            0
        })
    }
}

/// What is right after a change is what was right before it, with the improvements and
/// without the regressions.
pub proof fn improvements_and_regressions_explain_the_change(comparisons: Seq<Comparison>)
    ensures
        count_correct(comparisons) + count_regressions(comparisons) == count_correct_before(
            comparisons,
        ) + count_improvements(comparisons),
        count_correct(comparisons) <= comparisons.len(),
        count_improvements(comparisons) + count_regressions(comparisons) <= comparisons.len(),
    decreases comparisons.len(),
{
    if comparisons.len() > 0 {
        improvements_and_regressions_explain_the_change(comparisons.drop_last());
    }
}

/// Counts the comparisons.
pub fn tally_of(comparisons: &[Comparison]) -> (result: Tally)
    ensures
        result.correct == count_correct(comparisons@),
        result.improvements == count_improvements(comparisons@),
        result.regressions == count_regressions(comparisons@),
{
    let mut result: Tally = Tally { correct: 0, improvements: 0, regressions: 0 };
    for index in 0..comparisons.len()
        invariant
            result.correct == count_correct(comparisons@.take(index as int)),
            result.improvements == count_improvements(comparisons@.take(index as int)),
            result.regressions == count_regressions(comparisons@.take(index as int)),
    {
        let ghost longer = comparisons@.take(index + 1);
        proof {
            assert(longer.drop_last() =~= comparisons@.take(index as int));
            improvements_and_regressions_explain_the_change(longer);
        }
        let comparison: Comparison = comparisons[index];
        if comparison.after {
            result.correct += 1;
        }
        if !comparison.before && comparison.after {
            result.improvements += 1;
        }
        if comparison.before && !comparison.after {
            result.regressions += 1;
        }
    }
    assert(comparisons@.take(comparisons@.len() as int) =~= comparisons@);
    result
}

/// The number of values that are true.
pub open spec fn count_true(values: Seq<bool>) -> nat
    decreases values.len(),
{
    if values.len() == 0 {
        0
    } else {
        count_true(values.drop_last()) + (if values.last() {
            1nat
        } else {
            0
        })
    }
}

/// No more values are true than there are.
pub proof fn count_true_is_bounded(values: Seq<bool>)
    ensures
        count_true(values) <= values.len(),
    decreases values.len(),
{
    if values.len() > 0 {
        count_true_is_bounded(values.drop_last());
    }
}

pub fn number_true(values: &[bool]) -> (result: usize)
    ensures
        result == count_true(values@),
{
    let mut result: usize = 0;
    for index in 0..values.len()
        invariant
            result == count_true(values@.take(index as int)),
    {
        proof {
            assert(values@.take(index + 1).drop_last() =~= values@.take(index as int));
            count_true_is_bounded(values@.take(index + 1));
        }
        if values[index] {
            result += 1;
        }
    }
    assert(values@.take(values@.len() as int) =~= values@);
    result
}

// ---------------------------------------------------------------------------
// Lists of surfaces
// ---------------------------------------------------------------------------

/// Whether a candidate is one of the expected surfaces.
pub open spec fn shares_a_text(candidates: Seq<Seq<char>>, expected: Seq<Seq<char>>) -> bool {
    exists|i: int| 0 <= i < candidates.len() && expected.contains(#[trigger] candidates[i])
}

pub fn contains_expected(candidates: &[String], expected: &[String]) -> (result: bool)
    ensures
        result == shares_a_text(texts(candidates@), texts(expected@)),
{
    for index in 0..candidates.len()
        invariant
            forall|i: int|
                0 <= i < index ==> !texts(expected@).contains(#[trigger] texts(candidates@)[i]),
    {
        assert(texts(candidates@)[index as int] == candidates@[index as int]@);
        if holds_text(expected, candidates[index].as_str()) {
            return true;
        }
    }
    false
}

/// The list with the value behind it, unless it holds the value.
pub open spec fn with_unique(values: Seq<Seq<char>>, value: Seq<char>) -> Seq<Seq<char>> {
    if values.contains(value) {
        values
    } else {
        values.push(value)
    }
}

/// The list with those of the further values behind it that it did not hold yet.
pub open spec fn with_all_unique(values: Seq<Seq<char>>, further: Seq<Seq<char>>) -> Seq<Seq<char>>
    decreases further.len(),
{
    if further.len() == 0 {
        values
    } else {
        with_unique(with_all_unique(values, further.drop_last()), further.last())
    }
}

/// Adding further values keeps every value at its place, leaves none out, and adds none twice.
pub proof fn unique_values_are_kept(values: Seq<Seq<char>>, further: Seq<Seq<char>>)
    ensures
        values.is_prefix_of(with_all_unique(values, further)),
        forall|i: int|
            0 <= i < further.len() ==> with_all_unique(values, further).contains(
                #[trigger] further[i],
            ),
        values.no_duplicates() ==> with_all_unique(values, further).no_duplicates(),
    decreases further.len(),
{
    if further.len() > 0 {
        let shorter = further.drop_last();
        let before = with_all_unique(values, shorter);
        let after = with_all_unique(values, further);
        unique_values_are_kept(values, shorter);
        assert(values =~= after.subrange(0, values.len() as int));
        assert forall|i: int| 0 <= i < further.len() implies after.contains(
            #[trigger] further[i],
        ) by {
            if i < shorter.len() {
                assert(shorter[i] == further[i]);
                let place = choose|j: int| 0 <= j < before.len() && before[j] == further[i];
                assert(after[place] == further[i]);
            } else if !before.contains(further[i]) {
                assert(after[before.len() as int] == further[i]);
            }
        }
    } else {
        assert(values =~= values.subrange(0, values.len() as int));
    }
}

pub fn push_unique(values: &mut Vec<String>, value: String)
    ensures
        texts(final(values)@) == with_unique(texts(old(values)@), value@),
{
    let ghost before = texts(values@);
    let ghost added = value@;
    if !holds_text(values.as_slice(), value.as_str()) {
        values.push(value);
        assert(texts(values@) =~= before.push(added));
    }
}

/// Adds the variants that the list does not hold yet.
pub fn push_all_unique(values: &mut Vec<String>, variants: &[String])
    ensures
        texts(final(values)@) == with_all_unique(texts(old(values)@), texts(variants@)),
{
    let ghost start = texts(values@);
    assert(texts(variants@).take(0) =~= Seq::<Seq<char>>::empty());
    for index in 0..variants.len()
        invariant
            texts(values@) == with_all_unique(start, texts(variants@).take(index as int)),
    {
        let ghost longer = texts(variants@).take(index + 1);
        assert(longer.drop_last() =~= texts(variants@).take(index as int));
        assert(longer.last() == variants@[index as int]@);
        push_unique(values, variants[index].clone());
    }
    assert(texts(variants@).take(variants@.len() as int) =~= texts(variants@));
}

/// Where the expected surface stands among the candidates of a wider search.
#[derive(Clone, Copy, Debug, PartialEq, Eq, Structural)]
pub enum RemainingRank {
    /// Among those that are searched for ordinarily.
    Ordinary,
    /// Only among those of the wider search.
    Wide,
    /// Nowhere.
    Missing,
}

/// The class of a failure by the place of the expected surface, counted from zero.
pub fn remaining_rank(place: Option<usize>, ordinary: usize) -> (result: RemainingRank)
    ensures
        result == (match place {
            Some(found) => if found < ordinary {
                RemainingRank::Ordinary
            } else {
                RemainingRank::Wide
            },
            None => RemainingRank::Missing,
        }),
{
    match place {
        Some(found) => if found < ordinary {
            RemainingRank::Ordinary
        } else {
            RemainingRank::Wide
        },
        None => RemainingRank::Missing,
    }
}

/// Tallies add up, and one comparison counts as right if it is right after the change, as an
/// improvement if only then, and as a regression if only before.
pub proof fn tallies_add_up(left: Seq<Comparison>, right: Seq<Comparison>, one: Comparison)
    ensures
        count_correct(left + right) == count_correct(left) + count_correct(right),
        count_improvements(left + right) == count_improvements(left) + count_improvements(right),
        count_regressions(left + right) == count_regressions(left) + count_regressions(right),
        count_correct(seq![one]) == (if one.after {
            1nat
        } else {
            0
        }),
        count_improvements(seq![one]) == (if one.after && !one.before {
            1nat
        } else {
            0
        }),
        count_regressions(seq![one]) == (if one.before && !one.after {
            1nat
        } else {
            0
        }),
    decreases right.len(),
{
    assert(seq![one].drop_last() =~= Seq::<Comparison>::empty());
    assert(seq![one].last() == one);
    assert(count_correct(Seq::<Comparison>::empty()) == 0);
    assert(count_improvements(Seq::<Comparison>::empty()) == 0);
    assert(count_regressions(Seq::<Comparison>::empty()) == 0);
    if right.len() == 0 {
        assert(left + right =~= left);
    } else {
        tallies_add_up(left, right.drop_last(), one);
        assert((left + right).drop_last() =~= left + right.drop_last());
    }
}

/// Numbers of true values add up, and one value counts if it is true.
pub proof fn true_values_add_up(left: Seq<bool>, right: Seq<bool>, one: bool)
    ensures
        count_true(left + right) == count_true(left) + count_true(right),
        count_true(seq![one]) == (if one {
            1nat
        } else {
            0
        }),
    decreases right.len(),
{
    assert(seq![one].drop_last() =~= Seq::<bool>::empty());
    assert(count_true(Seq::<bool>::empty()) == 0);
    if right.len() == 0 {
        assert(left + right =~= left);
    } else {
        true_values_add_up(left, right.drop_last(), one);
        assert((left + right).drop_last() =~= left + right.drop_last());
    }
}

} // verus!
