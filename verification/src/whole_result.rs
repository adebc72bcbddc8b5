//! When the whole result of a model replaces the conversion of a reading.

use vstd::prelude::*;

use crate::candidate::{
    best_place, cost_gap, costs, first_expected, gap_of_costs, last_best, position_of_surface,
    ranked_by_score, best_first, best_first_keeps_the_scores, best_first_orders_all_places,
    surfaces, Candidate, Scored,
};
use crate::correction::{
    ascii_part, bounded_local_substitution, bounded_multi_region_substitution,
    is_local_substitution, is_multi_region_substitution, keeps_kanji,
    preserves_ascii_alphanumerics, preserves_kanji_from_hiragana_deconversion,
};
use crate::generation::{
    in_generative_range, is_generative_length, Generated, LONG_WHOLE_RESULT_MINIMUM_COST_GAP,
    MAXIMUM_GENERATIVE_READING_CHARACTERS, MAX_CHANGED_CHARACTERS,
    MINIMUM_GENERATIVE_READING_CHARACTERS, WHOLE_RESULT_COST_GAP,
    WHOLE_RESULT_MAXIMUM_READING_CHARACTERS,
};
use crate::text::character_count;

verus! {

/// The gaps up to which whole results are tried.
pub const WHOLE_GENERATION_COST_GAPS: [i32; 7] = [
    500,
    1_000,
    1_500,
    2_500,
    3_100,
    5_000,
    2_147_483_647,
];

/// The gaps up to which supplements are tried.
pub const SUPPLEMENTAL_WHOLE_COST_GAPS: [i32; 5] = [1_400, 1_500, 2_000, 2_500, 3_100];

/// The lengths up to which whole results are tried.
pub const WHOLE_RESULT_READING_MAXIMUMS: [usize; 5] = [32, 40, 48, 64, usize::MAX];

/// The lengths up to which delayed results are tried.
pub const DELAYED_LONG_READING_MAXIMUMS: [usize; 4] = [40, 48, 64, usize::MAX];

/// The gaps from which on whole results for long readings are tried.
pub const LONG_WHOLE_RESULT_COST_FLOORS: [i32; 5] = [0, 250, 500, 750, 1_000];

// ---------------------------------------------------------------------------
// Consensus of the model's own text and the scored candidates
// ---------------------------------------------------------------------------

/// Whether the generated surface is one of the first `count` candidates and a local change of
/// the first one.
pub open spec fn is_local_consensus(
    length: int,
    generated: Seq<char>,
    stopped: bool,
    known: Seq<Seq<char>>,
    count: int,
) -> bool {
    &&& stopped
    &&& is_generative_length(length)
    &&& known.len() > 0
    &&& is_local_substitution(known[0], generated, MAX_CHANGED_CHARACTERS as nat)
    &&& known.take(count).contains(generated)
}

/// Whether the generated surface is one of the first `count` candidates and changes several
/// runs of the first one.
pub open spec fn is_multi_region_consensus(
    length: int,
    generated: Seq<char>,
    stopped: bool,
    known: Seq<Seq<char>>,
    count: int,
) -> bool {
    &&& stopped
    &&& is_generative_length(length)
    &&& known.len() > 0
    &&& is_multi_region_substitution(known[0], generated)
    &&& known.take(count).contains(generated)
}

/// Whether the model wrote one of the scored candidates: by a local change, and by a change of
/// several runs.
#[derive(Clone, Copy, Debug, PartialEq, Eq, Structural)]
pub struct ExistingGeneration {
    pub local: bool,
    pub multi_region: bool,
}

pub fn existing_generation(
    input: &str,
    generated: &Generated,
    augmented: &[Candidate],
    count: usize,
) -> (result: ExistingGeneration)
    requires
        count <= augmented@.len(),
    ensures
        result.local == is_local_consensus(
            input@.len() as int,
            generated.surface@,
            generated.stopped_at_eos,
            surfaces(augmented@),
            count as int,
        ),
        result.multi_region == is_multi_region_consensus(
            input@.len() as int,
            generated.surface@,
            generated.stopped_at_eos,
            surfaces(augmented@),
            count as int,
        ),
{
    let surface: &str = generated.surface.as_str();
    if !generated.stopped_at_eos || augmented.len() == 0 || !in_generative_range(input) {
        return ExistingGeneration { local: false, multi_region: false };
    }
    let known: bool = match position_of_surface(augmented, surface) {
        Some(place) => {
            proof {
                crate::candidate::first_expected_is_the_first(
                    surfaces(augmented@),
                    seq![surface@],
                );
                let start = surfaces(augmented@).take(count as int);
                if place < count {
                    assert(start[place as int] == surface@);
                } else if start.contains(surface@) {
                    let earlier = choose|i: int| 0 <= i < start.len() && start[i] == surface@;
                    assert(surfaces(augmented@)[earlier] == surface@);
                    assert(seq![surface@][0] == surface@);
                    assert(seq![surface@].contains(surfaces(augmented@)[earlier]));
                }
            }
            place < count
        },
        None => {
            proof {
                let start = surfaces(augmented@).take(count as int);
                if start.contains(surface@) {
                    let earlier = choose|i: int| 0 <= i < start.len() && start[i] == surface@;
                    assert(surfaces(augmented@)[earlier] == surface@);
                }
            }
            false
        },
    };
    let base: &str = augmented[0].surface.as_str();
    ExistingGeneration {
        local: known && bounded_local_substitution(base, surface, MAX_CHANGED_CHARACTERS),
        multi_region: known && bounded_multi_region_substitution(base, surface),
    }
}

/// How close the scores of the generated surface and of the chosen candidate are: within the
/// range of a near tie, within it with the scores contrasted to those without context, and
/// within the wider range for changes of several runs.
#[derive(Clone, Copy, Debug, PartialEq, Eq, Structural)]
pub struct NearTies {
    pub model: bool,
    pub contrast: bool,
    pub contrast_multi_region: bool,
}

/// The surface that the contrasted scores and the generated one agree on.
pub fn contrast_consensus<'a>(
    existing: ExistingGeneration,
    ties: NearTies,
    generated: &'a str,
    iterative: &'a str,
) -> (result: &'a str)
    ensures
        result@ == (if existing.local && ties.contrast {
            generated@
        } else {
            iterative@
        }),
{
    if existing.local && ties.contrast {
        generated
    } else {
        iterative
    }
}

/// The surface after the changes of several runs are considered too.
pub fn multi_region_consensus<'a>(
    existing: ExistingGeneration,
    ties: NearTies,
    generated: &'a str,
    iterative: &'a str,
) -> (result: &'a str)
    ensures
        result@ == (if existing.multi_region && ties.contrast_multi_region {
            generated@
        } else if existing.local && ties.contrast {
            generated@
        } else {
            iterative@
        }),
{
    if existing.multi_region && ties.contrast_multi_region {
        generated
    } else {
        contrast_consensus(existing, ties, generated, iterative)
    }
}

// ---------------------------------------------------------------------------
// Support for long readings
// ---------------------------------------------------------------------------

/// Whether a gap lies in the range in which a long reading's candidate supports a whole
/// result.
pub open spec fn is_supporting_gap(gap: int) -> bool {
    LONG_WHOLE_RESULT_MINIMUM_COST_GAP <= gap <= WHOLE_RESULT_COST_GAP
}

/// The candidate with the best score among those from the second on, before `count`, whose gap
/// supports a whole result; of equal scores the last one.
pub open spec fn supporting_candidate(values: Seq<int>, scores: Seq<i64>, count: int) -> Option<int>
    decreases count,
{
    if count <= 1 {
        None
    } else {
        let earlier = supporting_candidate(values, scores, count - 1);
        if !is_supporting_gap(cost_gap(values[count - 1], values[0])) {
            earlier
        } else if earlier is Some && scores[earlier->0] > scores[count - 1] {
            earlier
        } else {
            Some(count - 1)
        }
    }
}

/// Whether the reading is too long for a whole result without further support, and short
/// enough for one with it.
pub open spec fn is_supported_length(length: int) -> bool {
    MAXIMUM_GENERATIVE_READING_CHARACTERS < length <= WHOLE_RESULT_MAXIMUM_READING_CHARACTERS
}

/// The candidate that supports a whole result for a long reading.
pub fn eligible_scored_candidate(
    input: &str,
    ordinary: &[Candidate],
    scores: &[i64],
    count: usize,
) -> (result: Option<usize>)
    requires
        count <= ordinary@.len(),
        count <= scores@.len(),
    ensures
        ({
            let owed = if is_supported_length(input@.len() as int) {
                supporting_candidate(costs(ordinary@), scores@, count as int)
            } else {
                None
            };
            &&& result is Some <==> owed is Some
            &&& result matches Some(place) ==> owed == Some(place as int) && 0 < place < count
        }),
{
    let length: usize = character_count(input);
    if count < 2 || length <= MAXIMUM_GENERATIVE_READING_CHARACTERS || length
        > WHOLE_RESULT_MAXIMUM_READING_CHARACTERS {
        return None;
    }
    let mut result: Option<usize> = None;
    let ghost values = costs(ordinary@);
    let mut index: usize = 1;
    while index < count
        invariant
            1 <= index <= count,
            count <= ordinary@.len(),
            count <= scores@.len(),
            values == costs(ordinary@),
            result is Some <==> supporting_candidate(values, scores@, index as int) is Some,
            result matches Some(place) ==> supporting_candidate(values, scores@, index as int)
                == Some(place as int) && 0 < place < index,
        decreases count - index,
    {
        let gap: i32 = gap_of_costs(ordinary[index].cost, ordinary[0].cost);
        if LONG_WHOLE_RESULT_MINIMUM_COST_GAP <= gap && gap <= WHOLE_RESULT_COST_GAP {
            let keeps: bool = match result {
                Some(place) => scores[place] > scores[index],
                None => false,
            };
            if !keeps {
                result = Some(index);
            }
        }
        index += 1;
    }
    result
}

/// The supporting candidate under each of the rules that are compared: whenever there is one,
/// only if the model prefers it to the first candidate, and only if the model puts it first of
/// all.
#[derive(Clone, Copy, Debug, PartialEq, Eq, Structural)]
pub struct ScoredVariants {
    pub eligible_top: Option<usize>,
    pub beats_base: Option<usize>,
    pub global_model_top: Option<usize>,
}

/// `preferred` says of each candidate whether the model prefers it to the first one.
pub fn scored_variants(eligible: Option<usize>, preferred: &[bool], top: Option<usize>) -> (result:
    ScoredVariants)
    requires
        eligible matches Some(place) ==> place < preferred@.len(),
    ensures
        result.eligible_top == eligible,
        result.beats_base == (if eligible is Some && preferred@[eligible->0 as int] {
            eligible
        } else {
            None
        }),
        result.global_model_top == (if eligible is Some && eligible == top {
            eligible
        } else {
            None
        }),
{
    match eligible {
        None => ScoredVariants { eligible_top: None, beats_base: None, global_model_top: None },
        Some(place) => {
            let is_top: bool = match top {
                Some(best) => best == place,
                None => false,
            };
            ScoredVariants {
                eligible_top: eligible,
                beats_base: if preferred[place] {
                    eligible
                } else {
                    None
                },
                global_model_top: if is_top {
                    eligible
                } else {
                    None
                },
            }
        },
    }
}

/// The candidate that the model alone puts first, of the first `count`.
pub fn global_model_top(scores: &[i64], count: usize) -> (result: Option<usize>)
    requires
        count <= scores@.len(),
    ensures
        count == 0 ==> result is None,
        count > 0 ==> result == Some(last_best(scores@.take(count as int)) as usize) && 0
            <= last_best(scores@.take(count as int)) < count,
{
    let mut compared: Vec<i64> = Vec::new();
    for index in 0..count
        invariant
            count <= scores@.len(),
            compared@ == scores@.take(index as int),
    {
        compared.push(scores[index]);
        assert(compared@ =~= scores@.take(index + 1));
    }
    best_place(compared.as_slice())
}

/// The candidate that the model alone puts first; of equal scores the first one.
pub fn model_top(scores: &[i64], count: usize) -> (result: usize)
    requires
        0 < count <= scores@.len(),
    ensures
        result == best_first(scores@.take(count as int))[0].place,
        result < count,
{
    let mut compared: Vec<i64> = Vec::new();
    for index in 0..count
        invariant
            count <= scores@.len(),
            compared@ == scores@.take(index as int),
    {
        compared.push(scores[index]);
        assert(compared@ =~= scores@.take(index + 1));
    }
    proof {
        best_first_orders_all_places(compared@);
        best_first_keeps_the_scores(compared@);
    }
    let ranked: Vec<Scored> = ranked_by_score(compared.as_slice());
    ranked[0].place
}

/// Whether one of the first `count` candidates, other than the first, is the generated
/// surface, comes out first by the model alone, and has a supporting gap.
pub open spec fn has_strict_support(
    known: Seq<Seq<char>>,
    values: Seq<int>,
    generated: Seq<char>,
    top: Option<usize>,
) -> bool {
    match first_expected(known, seq![generated]) {
        Some(place) => place != 0 && top is Some && top->0 == place && is_supporting_gap(
            cost_gap(values[place], values[0]),
        ),
        None => false,
    }
}

/// Whether the scored candidates support the generated surface for a very long reading.
pub fn strict_delayed_long_support(scored: &[Candidate], generated: &str, top: Option<usize>) -> (
    result: bool)
    ensures
        result == has_strict_support(surfaces(scored@), costs(scored@), generated@, top),
{
    match position_of_surface(scored, generated) {
        Some(place) => {
            let is_top: bool = match top {
                Some(best) => best == place,
                None => false,
            };
            let gap: i32 = gap_of_costs(scored[place].cost, scored[0].cost);
            place != 0 && is_top && LONG_WHOLE_RESULT_MINIMUM_COST_GAP <= gap && gap
                <= WHOLE_RESULT_COST_GAP
        },
        None => false,
    }
}

// ---------------------------------------------------------------------------
// The gates of a whole result
// ---------------------------------------------------------------------------

/// What is known of the generated surface when it is weighed against the conversion.
#[derive(Clone, Copy, Debug, PartialEq, Eq, Structural)]
pub struct WholeGates {
    /// The number of characters of the reading.
    pub reading_characters: usize,
    /// Whether the model came to an end.
    pub complete: bool,
    /// By how much the dictionary's conversion to the surface exceeds the first candidate;
    /// `None` if the dictionary has no such conversion.
    pub cost_gap: Option<i32>,
    /// Whether a supporting candidate comes out first by the model alone.
    pub supported: bool,
    /// Whether the personal names stay.
    pub keeps_names: bool,
    /// Whether the ASCII letters and digits stay.
    pub keeps_ascii: bool,
    /// Whether no kanji becomes hiragana.
    pub keeps_kanji: bool,
    /// Whether the length stays.
    pub same_length: bool,
}

pub open spec fn gap_is_at_most(gap: Option<i32>, maximum: int) -> bool {
    gap is Some && gap->0 <= maximum
}

pub open spec fn gap_is_at_least(gap: Option<i32>, minimum: int) -> bool {
    gap is Some && gap->0 >= minimum
}

impl WholeGates {
    /// Whether the length of the reading allows a whole result.
    pub open spec fn in_window(self) -> bool {
        MINIMUM_GENERATIVE_READING_CHARACTERS <= self.reading_characters
            <= WHOLE_RESULT_MAXIMUM_READING_CHARACTERS
    }

    /// Whether the reading needs no further support.
    pub open spec fn is_ordinary_length(self) -> bool {
        self.reading_characters <= MAXIMUM_GENERATIVE_READING_CHARACTERS
    }

    pub open spec fn meets_floor(self) -> bool {
        self.is_ordinary_length() || gap_is_at_least(
            self.cost_gap,
            LONG_WHOLE_RESULT_MINIMUM_COST_GAP as int,
        )
    }

    pub open spec fn has_support(self) -> bool {
        self.is_ordinary_length() || self.supported
    }

    /// Whether a whole result is considered at all.
    pub open spec fn is_considered(self) -> bool {
        self.complete && self.in_window() && self.has_support() && self.meets_floor()
            && self.keeps_names && self.keeps_ascii
    }

    /// Whether the whole result is taken.
    pub open spec fn accepted(self) -> bool {
        self.is_considered() && self.keeps_kanji && gap_is_at_most(
            self.cost_gap,
            WHOLE_RESULT_COST_GAP as int,
        )
    }

    /// Whether the whole result would be taken up to this gap, kanji or not.
    pub open spec fn accepted_up_to_gap(self, maximum: int) -> bool {
        self.is_considered() && gap_is_at_most(self.cost_gap, maximum)
    }

    /// Whether the whole result would be taken for readings up to this length, without further
    /// support.
    pub open spec fn accepted_up_to_length(self, maximum: int) -> bool {
        self.complete && MINIMUM_GENERATIVE_READING_CHARACTERS <= self.reading_characters
            <= maximum && self.keeps_names && self.keeps_ascii && self.keeps_kanji
            && gap_is_at_most(self.cost_gap, WHOLE_RESULT_COST_GAP as int)
    }

    /// Whether the whole result would be taken if long readings needed at least this gap and
    /// no further support.
    pub open spec fn accepted_from_floor(self, minimum: int) -> bool {
        self.complete && self.in_window() && (self.is_ordinary_length() || gap_is_at_least(
            self.cost_gap,
            minimum,
        )) && self.keeps_names && self.keeps_ascii && self.keeps_kanji && gap_is_at_most(
            self.cost_gap,
            WHOLE_RESULT_COST_GAP as int,
        )
    }

    /// Whether the whole result would be taken for readings beyond the window, up to this
    /// length, with strict support.
    pub open spec fn accepted_beyond_window(self, strict_support: bool, maximum: int) -> bool {
        WHOLE_RESULT_MAXIMUM_READING_CHARACTERS < self.reading_characters <= maximum
            && self.complete && strict_support && self.keeps_names && self.keeps_ascii
            && self.keeps_kanji
    }

    pub fn considered(&self) -> (result: bool)
        ensures
            result == self.is_considered(),
    {
        let ordinary: bool = self.reading_characters <= MAXIMUM_GENERATIVE_READING_CHARACTERS;
        let meets_floor: bool = ordinary || match self.cost_gap {
            Some(gap) => gap >= LONG_WHOLE_RESULT_MINIMUM_COST_GAP,
            None => false,
        };
        self.complete && MINIMUM_GENERATIVE_READING_CHARACTERS <= self.reading_characters
            && self.reading_characters <= WHOLE_RESULT_MAXIMUM_READING_CHARACTERS && (ordinary
            || self.supported) && meets_floor && self.keeps_names && self.keeps_ascii
    }

    fn gap_at_most(&self, maximum: i32) -> (result: bool)
        ensures
            result == gap_is_at_most(self.cost_gap, maximum as int),
    {
        match self.cost_gap {
            Some(gap) => gap <= maximum,
            None => false,
        }
    }

    pub fn accepts(&self) -> (result: bool)
        ensures
            result == self.accepted(),
    {
        self.considered() && self.keeps_kanji && self.gap_at_most(WHOLE_RESULT_COST_GAP)
    }

    pub fn accepts_up_to_gap(&self, maximum: i32) -> (result: bool)
        ensures
            result == self.accepted_up_to_gap(maximum as int),
    {
        self.considered() && self.gap_at_most(maximum)
    }

    pub fn accepts_up_to_length(&self, maximum: usize) -> (result: bool)
        ensures
            result == self.accepted_up_to_length(maximum as int),
    {
        self.complete && MINIMUM_GENERATIVE_READING_CHARACTERS <= self.reading_characters
            && self.reading_characters <= maximum && self.keeps_names && self.keeps_ascii
            && self.keeps_kanji && self.gap_at_most(WHOLE_RESULT_COST_GAP)
    }

    pub fn accepts_from_floor(&self, minimum: i32) -> (result: bool)
        ensures
            result == self.accepted_from_floor(minimum as int),
    {
        let reaches: bool = match self.cost_gap {
            Some(gap) => gap >= minimum,
            None => false,
        };
        self.complete && MINIMUM_GENERATIVE_READING_CHARACTERS <= self.reading_characters
            && self.reading_characters <= WHOLE_RESULT_MAXIMUM_READING_CHARACTERS && (
        self.reading_characters <= MAXIMUM_GENERATIVE_READING_CHARACTERS || reaches)
            && self.keeps_names && self.keeps_ascii && self.keeps_kanji && self.gap_at_most(
            WHOLE_RESULT_COST_GAP,
        )
    }

    pub fn accepts_beyond_window(&self, strict_support: bool, maximum: usize) -> (result: bool)
        ensures
            result == self.accepted_beyond_window(strict_support, maximum as int),
    {
        self.reading_characters > WHOLE_RESULT_MAXIMUM_READING_CHARACTERS
            && self.reading_characters <= maximum && self.complete && strict_support
            && self.keeps_names && self.keeps_ascii && self.keeps_kanji
    }

    /// The first gate that the whole result fails at.
    pub open spec fn failing_gate(self) -> WholeBlock {
        if !self.complete {
            WholeBlock::Incomplete
        } else if !self.in_window() {
            WholeBlock::ReadingWindow
        } else if !self.has_support() {
            WholeBlock::LongPreGate
        } else if self.cost_gap is None {
            WholeBlock::NotLatticeBacked
        } else if self.cost_gap->0 > WHOLE_RESULT_COST_GAP {
            WholeBlock::CostGap
        } else if !self.meets_floor() {
            WholeBlock::LongCostFloor
        } else if !self.keeps_ascii {
            WholeBlock::Ascii
        } else if !self.keeps_kanji {
            WholeBlock::KanjiDeconversion
        } else if !self.keeps_names {
            WholeBlock::PersonalName
        } else {
            WholeBlock::AcceptedButIncorrect
        }
    }

    pub fn block(&self) -> (result: WholeBlock)
        ensures
            result == self.failing_gate(),
    {
        if !self.complete {
            return WholeBlock::Incomplete;
        }
        if self.reading_characters < MINIMUM_GENERATIVE_READING_CHARACTERS
            || self.reading_characters > WHOLE_RESULT_MAXIMUM_READING_CHARACTERS {
            return WholeBlock::ReadingWindow;
        }
        let ordinary: bool = self.reading_characters <= MAXIMUM_GENERATIVE_READING_CHARACTERS;
        if !ordinary && !self.supported {
            return WholeBlock::LongPreGate;
        }
        match self.cost_gap {
            None => WholeBlock::NotLatticeBacked,
            Some(gap) => {
                if gap > WHOLE_RESULT_COST_GAP {
                    WholeBlock::CostGap
                } else if !ordinary && gap < LONG_WHOLE_RESULT_MINIMUM_COST_GAP {
                    WholeBlock::LongCostFloor
                } else if !self.keeps_ascii {
                    WholeBlock::Ascii
                } else if !self.keeps_kanji {
                    WholeBlock::KanjiDeconversion
                } else if !self.keeps_names {
                    WholeBlock::PersonalName
                } else {
                    WholeBlock::AcceptedButIncorrect
                }
            },
        }
    }
}

/// The first condition that keeps a whole result from being taken.
#[derive(Clone, Copy, Debug, PartialEq, Eq, Structural)]
pub enum WholeBlock {
    Incomplete,
    ReadingWindow,
    LongPreGate,
    NotLatticeBacked,
    CostGap,
    LongCostFloor,
    Ascii,
    KanjiDeconversion,
    PersonalName,
    AcceptedButIncorrect,
}

impl WholeBlock {
    pub open spec fn spec_name(self) -> Seq<char> {
        match self {
            WholeBlock::Incomplete => "incomplete"@,
            WholeBlock::ReadingWindow => "reading_window"@,
            WholeBlock::LongPreGate => "long_pre_gate"@,
            WholeBlock::NotLatticeBacked => "not_lattice_backed"@,
            WholeBlock::CostGap => "cost_gap"@,
            WholeBlock::LongCostFloor => "long_cost_floor"@,
            WholeBlock::Ascii => "ascii"@,
            WholeBlock::KanjiDeconversion => "kanji_deconversion"@,
            WholeBlock::PersonalName => "personal_name"@,
            WholeBlock::AcceptedButIncorrect => "accepted_but_incorrect"@,
        }
    }

    /// The name in the report.
    pub fn name(&self) -> (result: &'static str)
        ensures
            result@ == self.spec_name(),
    {
        match self {
            WholeBlock::Incomplete => "incomplete",
            WholeBlock::ReadingWindow => "reading_window",
            WholeBlock::LongPreGate => "long_pre_gate",
            WholeBlock::NotLatticeBacked => "not_lattice_backed",
            WholeBlock::CostGap => "cost_gap",
            WholeBlock::LongCostFloor => "long_cost_floor",
            WholeBlock::Ascii => "ascii",
            WholeBlock::KanjiDeconversion => "kanji_deconversion",
            WholeBlock::PersonalName => "personal_name",
            WholeBlock::AcceptedButIncorrect => "accepted_but_incorrect",
        }
    }
}

/// A whole result is taken exactly where no gate fails.
pub proof fn a_whole_result_is_taken_where_no_gate_fails(gates: WholeGates)
    ensures
        gates.accepted() <==> gates.failing_gate() == WholeBlock::AcceptedButIncorrect,
{
}

/// What is taken at a narrow gap, length or high floor is taken at a wider one too.
pub proof fn wider_limits_take_no_less(
    gates: WholeGates,
    strict_support: bool,
    narrow: int,
    wide: int,
)
    requires
        narrow <= wide,
    ensures
        gates.accepted_up_to_gap(narrow) ==> gates.accepted_up_to_gap(wide),
        gates.accepted_up_to_length(narrow) ==> gates.accepted_up_to_length(wide),
        gates.accepted_from_floor(wide) ==> gates.accepted_from_floor(narrow),
        gates.accepted_beyond_window(strict_support, narrow) ==> gates.accepted_beyond_window(
            strict_support,
            wide,
        ),
{
}

/// Whatever is taken, is taken by the sweep over gaps, over lengths and over floors at the
/// limits in force.
pub proof fn the_sweeps_contain_the_rule(gates: WholeGates)
    ensures
        gates.accepted() ==> gates.accepted_up_to_gap(WHOLE_RESULT_COST_GAP as int),
        gates.accepted() ==> gates.accepted_up_to_length(
            WHOLE_RESULT_MAXIMUM_READING_CHARACTERS as int,
        ),
        gates.accepted() ==> gates.accepted_from_floor(LONG_WHOLE_RESULT_MINIMUM_COST_GAP as int),
{
}

/// The gates for a generated surface against the conversion that it would replace.
pub fn whole_gates(
    input: &str,
    current: &str,
    generated: &Generated,
    conversion_gap: Option<i32>,
    supported: bool,
    changes_name: bool,
) -> (result: WholeGates)
    ensures
        result == (WholeGates {
            reading_characters: input@.len() as usize,
            complete: generated.stopped_at_eos,
            cost_gap: conversion_gap,
            supported,
            keeps_names: !changes_name,
            keeps_ascii: ascii_part(current@) == ascii_part(generated.surface@),
            keeps_kanji: keeps_kanji(current@, generated.surface@),
            same_length: current@.len() == generated.surface@.len(),
        }),
        input@.len() <= usize::MAX,
{
    let surface: &str = generated.surface.as_str();
    WholeGates {
        reading_characters: character_count(input),
        complete: generated.stopped_at_eos,
        cost_gap: conversion_gap,
        supported,
        keeps_names: !changes_name,
        keeps_ascii: preserves_ascii_alphanumerics(current, surface),
        keeps_kanji: preserves_kanji_from_hiragana_deconversion(current, surface),
        same_length: character_count(current) == character_count(surface),
    }
}

/// Whether a candidate may stand in for the current conversion: its ASCII letters and digits,
/// its kanji and its names stay.
pub fn preserves_conversion(current: &str, candidate: &str, changes_name: bool) -> (result: bool)
    ensures
        result == (ascii_part(current@) == ascii_part(candidate@) && keeps_kanji(
            current@,
            candidate@,
        ) && !changes_name),
{
    preserves_ascii_alphanumerics(current, candidate)
        && preserves_kanji_from_hiragana_deconversion(current, candidate) && !changes_name
}

// ---------------------------------------------------------------------------
// What the rules mean
// ---------------------------------------------------------------------------

/// A whole result is taken exactly if the model came to an end, the reading has six to 40 characters,
/// the dictionary converts to the surface at a cost of at most 1000 more than the first candidate,
/// and names, ASCII letters and digits, and kanji stay; readings beyond 32 characters also need the
/// support of a scored candidate and a cost of at least 500 more.
pub proof fn a_whole_result_needs_every_condition(gates: WholeGates)
    ensures
        gates.accepted() <==> {
            &&& gates.complete
            &&& 6 <= gates.reading_characters <= 40
            &&& gates.cost_gap is Some && gates.cost_gap->0 <= 1000
            &&& gates.keeps_names && gates.keeps_ascii && gates.keeps_kanji
            &&& gates.reading_characters > 32 ==> gates.supported && gates.cost_gap->0 >= 500
        },
{
}

/// Each sweep changes one condition of the rule and leaves the others: the greatest gap and the
/// kanji, the longest reading, or the least gap of long readings.
pub proof fn each_sweep_changes_one_condition(gates: WholeGates, strict_support: bool, limit: int)
    ensures
        gates.accepted_up_to_gap(limit) <==> {
            &&& gates.complete && 6 <= gates.reading_characters <= 40
            &&& gates.keeps_names && gates.keeps_ascii
            &&& gates.reading_characters > 32 ==> gates.supported
            &&& gates.cost_gap is Some && gates.cost_gap->0 <= limit
            &&& gates.reading_characters > 32 ==> gates.cost_gap->0 >= 500
        },
        gates.accepted_up_to_length(limit) <==> {
            &&& gates.complete && 6 <= gates.reading_characters <= limit
            &&& gates.keeps_names && gates.keeps_ascii && gates.keeps_kanji
            &&& gates.cost_gap is Some && gates.cost_gap->0 <= 1000
        },
        gates.accepted_from_floor(limit) <==> {
            &&& gates.complete && 6 <= gates.reading_characters <= 40
            &&& gates.keeps_names && gates.keeps_ascii && gates.keeps_kanji
            &&& gates.cost_gap is Some && gates.cost_gap->0 <= 1000
            &&& gates.reading_characters > 32 ==> gates.cost_gap->0 >= limit
        },
        gates.accepted_beyond_window(strict_support, limit) <==> {
            &&& gates.complete && strict_support && 40 < gates.reading_characters <= limit
            &&& gates.keeps_names && gates.keeps_ascii && gates.keeps_kanji
        },
{
}

/// The block that is named is the first condition that does not hold.
pub proof fn the_first_broken_condition_is_named(gates: WholeGates)
    ensures
        ({
            let block = gates.failing_gate();
            let length = gates.reading_characters;
            &&& block == WholeBlock::Incomplete <==> !gates.complete
            &&& block == WholeBlock::ReadingWindow ==> length < 6 || length > 40
            &&& block == WholeBlock::LongPreGate ==> length > 32 && !gates.supported
            &&& block == WholeBlock::NotLatticeBacked ==> gates.cost_gap is None
            &&& block == WholeBlock::CostGap ==> gates.cost_gap is Some && gates.cost_gap->0 > 1000
            &&& block == WholeBlock::LongCostFloor ==> length > 32 && gates.cost_gap->0 < 500
            &&& block == WholeBlock::Ascii ==> !gates.keeps_ascii
            &&& block == WholeBlock::KanjiDeconversion ==> !gates.keeps_kanji
            &&& block == WholeBlock::PersonalName ==> !gates.keeps_names
            &&& !gates.keeps_names && gates.keeps_ascii && gates.keeps_kanji && gates.complete && 6
                <= length <= 32 && gates.cost_gap is Some && gates.cost_gap->0 <= 1000 ==> block
                == WholeBlock::PersonalName
            &&& !gates.keeps_kanji && gates.keeps_ascii && gates.complete && 6 <= length <= 32
                && gates.cost_gap is Some && gates.cost_gap->0 <= 1000 ==> block
                == WholeBlock::KanjiDeconversion
        }),
{
}

/// The candidate that supports a whole result is not the first one, costs 500 to 1000 more than it,
/// and no other such candidate has a better score; of equal scores it is the last. Without such a
/// candidate there is none.
pub proof fn the_supporting_candidate_is_the_best_in_its_range(
    values: Seq<int>,
    scores: Seq<i64>,
    count: int,
)
    requires
        0 <= count <= values.len(),
        count <= scores.len(),
        forall|i: int| 0 <= i < values.len() ==> i32::MIN <= #[trigger] values[i] <= i32::MAX,
    ensures
        supporting_candidate(values, scores, count) matches Some(place) ==> {
            &&& 1 <= place < count
            &&& 500 <= values[place] - values[0] <= 1000
            &&& forall|i: int|
                1 <= i < count && 500 <= #[trigger] values[i] - values[0] <= 1000 ==> scores[i]
                    < scores[place] || (scores[i] == scores[place] && i <= place)
        },
        supporting_candidate(values, scores, count) is None ==> forall|i: int|
            1 <= i < count ==> !(500 <= #[trigger] values[i] - values[0] <= 1000),
    decreases count,
{
    if count > 1 {
        the_supporting_candidate_is_the_best_in_its_range(values, scores, count - 1);
        assert(i32::MIN <= values[0] <= i32::MAX && i32::MIN <= values[count - 1] <= i32::MAX);
        assert(is_supporting_gap(cost_gap(values[count - 1], values[0])) <==> 500 <= values[count - 1]
            - values[0] <= 1000);
    }
}

/// The limits that the sweeps run over.
pub proof fn the_swept_limits()
    ensures
        WHOLE_GENERATION_COST_GAPS@ =~= seq![
            500i32,
            1000i32,
            1500i32,
            2500i32,
            3100i32,
            5000i32,
            2_147_483_647i32,
        ],
        SUPPLEMENTAL_WHOLE_COST_GAPS@ =~= seq![1400i32, 1500i32, 2000i32, 2500i32, 3100i32],
        WHOLE_RESULT_READING_MAXIMUMS@ =~= seq![32usize, 40usize, 48usize, 64usize, usize::MAX],
        DELAYED_LONG_READING_MAXIMUMS@ =~= seq![40usize, 48usize, 64usize, usize::MAX],
        LONG_WHOLE_RESULT_COST_FLOORS@ =~= seq![0i32, 250i32, 500i32, 750i32, 1000i32],
{
}

} // verus!
