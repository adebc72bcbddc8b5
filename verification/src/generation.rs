//! Whether a surface that a model wrote on its own may take the place of a conversion.

use vstd::prelude::*;

use crate::candidate::{
    best_place, copied, copied_start, cost_difference, cost_gap, costs, difference_of_costs,
    first_expected, gap_of_costs, last_best, position_of_surface, surfaces, views, Candidate,
};
use crate::correction::{
    ascii_part, bounded_local_substitution, bounded_multi_region_substitution,
    bounded_multi_region_surface_compression, is_local_substitution, is_multi_region_substitution,
    is_surface_compression, keeps_kanji, preserves_ascii_alphanumerics,
    preserves_kanji_from_hiragana_deconversion, LONG_INPUT_CHARACTERS, LONG_MAX_CANDIDATE_COST_GAP,
    MAX_BASE_COST_GAP, SEARCH_LIMIT, SHORT_MAX_CANDIDATE_COST_GAP,
};
use crate::text::{character_count, same_text};

verus! {

/// From this many characters on, a reading is left to the model.
pub const MINIMUM_GENERATIVE_READING_CHARACTERS: usize = 6;

/// Up to this many characters a reading is left to the model without further support.
pub const MAXIMUM_GENERATIVE_READING_CHARACTERS: usize = 32;

/// Up to this many characters a whole result of the model may be taken.
pub const WHOLE_RESULT_MAXIMUM_READING_CHARACTERS: usize = 40;

/// From this gap on a whole result for a long reading may be taken.
pub const LONG_WHOLE_RESULT_MINIMUM_COST_GAP: i32 = 500;

/// Up to this gap a whole result may be taken.
pub const WHOLE_RESULT_COST_GAP: i32 = 1_000;

/// From this many characters on a reading without right context is weighed differently.
pub const VERY_LONG_INPUT_CHARACTERS: usize = 20;

/// By how much a generated surface of a long reading with several changed runs may exceed the
/// first candidate.
pub const EXTENDED_GENERATIVE_COST_GAP: i32 = 3_100;

/// By how much a supplemental surface may exceed the first candidate.
pub const BROAD_COST_GAP: i32 = 3_100;

/// How many characters a local correction may change.
pub const MAX_CHANGED_CHARACTERS: usize = 2;

/// How many characters of a prefix have to be settled before it constrains a conversion.
pub const MIN_PREFIX_CHARACTERS: usize = 4;

/// What a model wrote for a reading, and whether it came to an end.
#[derive(Debug, PartialEq, Eq)]
pub struct Generated {
    pub surface: String,
    pub stopped_at_eos: bool,
}

/// Whether a reading of this length is left to the model.
pub open spec fn is_generative_length(length: int) -> bool {
    MINIMUM_GENERATIVE_READING_CHARACTERS <= length <= MAXIMUM_GENERATIVE_READING_CHARACTERS
}

pub fn in_generative_range(input: &str) -> (result: bool)
    ensures
        result == is_generative_length(input@.len() as int),
{
    let length: usize = character_count(input);
    MINIMUM_GENERATIVE_READING_CHARACTERS <= length && length
        <= MAXIMUM_GENERATIVE_READING_CHARACTERS
}

// ---------------------------------------------------------------------------
// Candidate sets
// ---------------------------------------------------------------------------

/// By how much a generated surface may exceed the first candidate, by the shape of the change.
pub open spec fn generated_gap(length: int, base: Seq<char>, offered: Seq<char>) -> int {
    let is_long = length >= LONG_INPUT_CHARACTERS;
    if is_long && is_multi_region_substitution(base, offered) {
        EXTENDED_GENERATIVE_COST_GAP as int
    } else if is_long && is_surface_compression(base, offered) {
        LONG_MAX_CANDIDATE_COST_GAP as int
    } else if is_multi_region_substitution(base, offered) || is_surface_compression(base, offered) {
        SHORT_MAX_CANDIDATE_COST_GAP as int
    } else {
        MAX_BASE_COST_GAP as int
    }
}

fn maximum_generated_gap(input: &str, base: &str, offered: &str) -> (result: i32)
    ensures
        result == generated_gap(input@.len() as int, base@, offered@),
{
    let is_long: bool = character_count(input) >= LONG_INPUT_CHARACTERS;
    let is_multi_region: bool = bounded_multi_region_substitution(base, offered);
    let is_compression: bool = bounded_multi_region_surface_compression(base, offered);
    if is_long && is_multi_region {
        EXTENDED_GENERATIVE_COST_GAP
    } else if is_long && is_compression {
        LONG_MAX_CANDIDATE_COST_GAP
    } else if is_multi_region || is_compression {
        SHORT_MAX_CANDIDATE_COST_GAP
    } else {
        MAX_BASE_COST_GAP
    }
}

/// Whether the dictionary's conversion to the generated surface joins the scored candidates:
/// the model came to an end, the dictionary knows the surface, it is none of the candidates,
/// the reading has the right length, and the conversion is cheap enough.
pub open spec fn joins_candidates(
    length: int,
    scored: Seq<(Seq<char>, int)>,
    stopped: bool,
    backed: Option<(Seq<char>, int)>,
) -> bool {
    &&& scored.len() >= 2
    &&& stopped
    &&& backed is Some
    &&& !scored.map_values(|candidate: (Seq<char>, int)| candidate.0).contains((backed->0).0)
    &&& is_generative_length(length)
    &&& cost_difference((backed->0).1, scored[0].1) <= generated_gap(
        length,
        scored[0].0,
        (backed->0).0,
    )
}

/// The scored candidates, with the conversion to the generated surface behind them if it joins
/// them. `conversions` are the dictionary's conversions that start with the generated surface.
pub fn augmented_candidates(
    input: &str,
    ordinary: &[Candidate],
    count: usize,
    generated: &Generated,
    conversions: &[Candidate],
) -> (result: Vec<Candidate>)
    requires
        count <= ordinary@.len(),
    ensures
        views(result@) == ({
            let scored = views(ordinary@).take(count as int);
            let backed = backed_conversion(views(conversions@), generated.surface@);
            if joins_candidates(input@.len() as int, scored, generated.stopped_at_eos, backed) {
                scored.push(backed->0)
            } else {
                scored
            }
        }),
{
    let mut result: Vec<Candidate> = copied_start(ordinary, count);
    let ghost scored = views(ordinary@).take(count as int);
    proof {
        surfaces_are_first_parts(conversions@);
        surfaces_are_first_parts(result@);
    }
    let backed: Option<usize> = position_of_surface(conversions, generated.surface.as_str());
    if count >= 2 && generated.stopped_at_eos && backed.is_some() && in_generative_range(input) {
        let conversion: &Candidate = &conversions[backed.unwrap()];
        assert(backed_conversion(views(conversions@), generated.surface@) == Some(conversion@));
        assert(ordinary@[0]@ == scored[0]);
        if position_of_surface(result.as_slice(), conversion.surface.as_str()).is_none()
            && difference_of_costs(conversion.cost, ordinary[0].cost) <= maximum_generated_gap(
            input,
            ordinary[0].surface.as_str(),
            conversion.surface.as_str(),
        ) {
            result.push(copied(conversion));
            assert(views(result@) =~= scored.push(conversion@));
        }
    }
    result
}

/// The first conversion to exactly this surface.
pub open spec fn backed_conversion(
    conversions: Seq<(Seq<char>, int)>,
    surface: Seq<char>,
) -> Option<(Seq<char>, int)> {
    match first_expected(
        conversions.map_values(|candidate: (Seq<char>, int)| candidate.0),
        seq![surface],
    ) {
        Some(place) => Some(conversions[place]),
        None => None,
    }
}

proof fn surfaces_are_first_parts(candidates: Seq<Candidate>)
    ensures
        surfaces(candidates) == views(candidates).map_values(
            |candidate: (Seq<char>, int)| candidate.0,
        ),
{
    assert(surfaces(candidates) =~= views(candidates).map_values(
        |candidate: (Seq<char>, int)| candidate.0,
    ));
}

/// Whether the generated surface supplements the candidates on a wider gap: it keeps the
/// length, the ASCII letters and digits, the kanji and the names of the first candidate, and
/// is none of the candidates.
pub open spec fn is_broad_supplement(
    length: int,
    count: int,
    base: Seq<char>,
    generated: Seq<char>,
    stopped: bool,
    changes_name: bool,
    known: Seq<Seq<char>>,
) -> bool {
    &&& count >= 2
    &&& stopped
    &&& is_generative_length(length)
    &&& base.len() == generated.len()
    &&& ascii_part(base) == ascii_part(generated)
    &&& keeps_kanji(base, generated)
    &&& !changes_name
    &&& !known.contains(generated)
}

/// The first conversion to exactly this surface that is cheap enough for a supplement.
pub open spec fn broad_conversion_from(
    conversions: Seq<(Seq<char>, int)>,
    surface: Seq<char>,
    base_cost: int,
    index: int,
) -> Option<(Seq<char>, int)>
    decreases conversions.len() - index,
{
    if index < 0 || index >= conversions.len() {
        None
    } else if conversions[index].0 == surface && cost_gap(conversions[index].1, base_cost)
        <= BROAD_COST_GAP {
        Some(conversions[index])
    } else {
        broad_conversion_from(conversions, surface, base_cost, index + 1)
    }
}

fn find_broad_conversion(conversions: &[Candidate], surface: &str, base_cost: i32) -> (result:
    Option<Candidate>)
    ensures
        result is Some <==> broad_conversion_from(
            views(conversions@),
            surface@,
            base_cost as int,
            0,
        ) is Some,
        result matches Some(candidate) ==> broad_conversion_from(
            views(conversions@),
            surface@,
            base_cost as int,
            0,
        ) == Some(candidate@),
{
    for index in 0..conversions.len()
        invariant
            broad_conversion_from(views(conversions@), surface@, base_cost as int, index as int)
                == broad_conversion_from(views(conversions@), surface@, base_cost as int, 0),
    {
        assert(views(conversions@)[index as int] == conversions@[index as int]@);
        if same_text(conversions[index].surface.as_str(), surface) && gap_of_costs(
            conversions[index].cost,
            base_cost,
        ) <= BROAD_COST_GAP {
            return Some(copied(&conversions[index]));
        }
    }
    None
}

/// The conversion by which the generated surface supplements the candidates, if it does.
pub fn broad_supplement(
    input: &str,
    ordinary: &[Candidate],
    count: usize,
    generated: &Generated,
    conversions: &[Candidate],
    changes_name: bool,
    augmented: &[Candidate],
) -> (result: Option<Candidate>)
    requires
        count >= 1 ==> ordinary@.len() > 0,
    ensures
        ({
            let owed = if count >= 2 && is_broad_supplement(
                input@.len() as int,
                count as int,
                ordinary@[0].surface@,
                generated.surface@,
                generated.stopped_at_eos,
                changes_name,
                surfaces(augmented@),
            ) {
                broad_conversion_from(
                    views(conversions@),
                    generated.surface@,
                    ordinary@[0].cost as int,
                    0,
                )
            } else {
                None
            };
            &&& result is Some <==> owed is Some
            &&& result matches Some(candidate) ==> Some(candidate@) == owed
        }),
{
    if count < 2 || !generated.stopped_at_eos || !in_generative_range(input) || changes_name {
        return None;
    }
    let base: &str = ordinary[0].surface.as_str();
    let surface: &str = generated.surface.as_str();
    if character_count(base) != character_count(surface) || !preserves_ascii_alphanumerics(
        base,
        surface,
    ) || !preserves_kanji_from_hiragana_deconversion(base, surface) || position_of_surface(
        augmented,
        surface,
    ).is_some() {
        return None;
    }
    find_broad_conversion(conversions, surface, ordinary[0].cost)
}

/// The candidates with the supplement behind them; where there are as many as are searched
/// for, it takes the place of the last one.
pub fn supplemented(augmented: Vec<Candidate>, supplement: Candidate) -> (result: Vec<Candidate>)
    ensures
        views(result@) == (if augmented@.len() >= SEARCH_LIMIT {
            views(augmented@).drop_last().push(supplement@)
        } else {
            views(augmented@).push(supplement@)
        }),
{
    let ghost before = views(augmented@);
    let mut result: Vec<Candidate> = augmented;
    if result.len() >= SEARCH_LIMIT {
        let dropped: Option<Candidate> = result.pop();
        assert(views(result@) =~= before.drop_last());
    }
    let ghost kept = views(result@);
    result.push(supplement);
    assert(views(result@) =~= kept.push(supplement@));
    result
}

// ---------------------------------------------------------------------------
// Rescoring
// ---------------------------------------------------------------------------

/// Whether the reading is weighed as a very long one: nothing stands behind it.
pub open spec fn is_weighed_as_very_long(length: int, right_context: Seq<char>) -> bool {
    right_context.len() == 0 && length >= VERY_LONG_INPUT_CHARACTERS
}

/// Whether the best candidate needs a lead over the first one.
pub open spec fn needs_a_lead(length: int, right_context: Seq<char>) -> bool {
    right_context.len() > 0 || length < LONG_INPUT_CHARACTERS
}

/// How the scores of a reading are combined: whether it is weighed as a very long one, and
/// whether the best candidate needs a lead.
pub fn weighing(input: &str, right_context: &str) -> (result: (bool, bool))
    ensures
        result.0 == is_weighed_as_very_long(input@.len() as int, right_context@),
        result.1 == needs_a_lead(input@.len() as int, right_context@),
{
    let length: usize = character_count(input);
    let has_right_context: bool = !right_context.is_empty();
    (
        !has_right_context && length >= VERY_LONG_INPUT_CHARACTERS,
        has_right_context || length < LONG_INPUT_CHARACTERS,
    )
}

/// The candidate that the combined scores choose: the best one, if it has the lead that it
/// needs, else the first. A supplement in the last place needs the larger lead.
pub open spec fn chosen_place(
    scores: Seq<i64>,
    leads: Seq<bool>,
    supplement_leads: Seq<bool>,
    last_is_supplement: bool,
) -> int {
    if scores.len() == 0 {
        0
    } else {
        let top = last_best(scores);
        let has_lead = if last_is_supplement && top + 1 == scores.len() {
            supplement_leads[top]
        } else {
            leads[top]
        };
        if top != 0 && !has_lead {
            0
        } else {
            top
        }
    }
}

pub fn rescored_index(
    scores: &[i64],
    leads: &[bool],
    supplement_leads: &[bool],
    last_is_supplement: bool,
) -> (result: usize)
    requires
        leads@.len() >= scores@.len(),
        supplement_leads@.len() >= scores@.len(),
    ensures
        result == chosen_place(scores@, leads@, supplement_leads@, last_is_supplement),
        scores@.len() > 0 ==> result < scores@.len(),
{
    match best_place(scores) {
        None => 0,
        Some(top) => {
            let has_lead: bool = if last_is_supplement && top == scores.len() - 1 {
                supplement_leads[top]
            } else {
                leads[top]
            };
            if top != 0 && !has_lead {
                0
            } else {
                top
            }
        },
    }
}

/// Whether the generated surface stands behind the scored candidates and costs more than a
/// scored candidate may.
pub open spec fn is_extended(
    length: int,
    base_cost: int,
    generated: Seq<char>,
    added: Option<(Seq<char>, int)>,
) -> bool {
    added is Some && (added->0).0 == generated && cost_difference((added->0).1, base_cost) > (
    if length >= LONG_INPUT_CHARACTERS {
        LONG_MAX_CANDIDATE_COST_GAP
    } else {
        SHORT_MAX_CANDIDATE_COST_GAP
    })
}

pub fn extended_generated_candidate(
    input: &str,
    base_cost: i32,
    generated: &str,
    augmented: &[Candidate],
    count: usize,
) -> (result: bool)
    ensures
        result == is_extended(
            input@.len() as int,
            base_cost as int,
            generated@,
            if count < augmented@.len() {
                Some(augmented@[count as int]@)
            } else {
                None
            },
        ),
{
    if count >= augmented.len() {
        return false;
    }
    let gap: i32 = if character_count(input) >= LONG_INPUT_CHARACTERS {
        LONG_MAX_CANDIDATE_COST_GAP
    } else {
        SHORT_MAX_CANDIDATE_COST_GAP
    };
    same_text(augmented[count].surface.as_str(), generated) && difference_of_costs(
        augmented[count].cost,
        base_cost,
    ) > gap
}

// ---------------------------------------------------------------------------
// Prefix corrections
// ---------------------------------------------------------------------------

/// A conversion that starts with a prefix of the model's choice, and whether it changes a
/// personal name of the current conversion.
#[derive(Debug, PartialEq, Eq)]
pub struct Alternative {
    pub surface: String,
    pub changes_name: bool,
}

/// Where the model would first have continued otherwise: the text up to there, whether it
/// would have ended instead, and whether it prefers its own way by the required margin.
#[derive(Debug, PartialEq, Eq)]
pub struct PrefixDiagnostic {
    pub prefix: String,
    pub alternative_is_eos: bool,
    pub leads: bool,
}

/// Whether the model's own way constrains the conversion.
pub open spec fn constrains(diagnostic: Option<PrefixDiagnostic>) -> bool {
    match diagnostic {
        None => false,
        Some(found) => !found.alternative_is_eos && found.prefix@.len() >= MIN_PREFIX_CHARACTERS
            && found.leads,
    }
}

/// Whether the alternative may replace the current conversion.
pub open spec fn is_safe(current: Seq<char>, alternative: Alternative) -> bool {
    &&& is_local_substitution(current, alternative.surface@, MAX_CHANGED_CHARACTERS as nat)
    &&& keeps_kanji(current, alternative.surface@)
    &&& !alternative.changes_name
}

/// The first safe alternative from `index` on.
pub open spec fn first_safe_from(
    current: Seq<char>,
    alternatives: Seq<Alternative>,
    index: int,
) -> Option<Seq<char>>
    decreases alternatives.len() - index,
{
    if index < 0 || index >= alternatives.len() {
        None
    } else if is_safe(current, alternatives[index]) {
        Some(alternatives[index].surface@)
    } else {
        first_safe_from(current, alternatives, index + 1)
    }
}

fn first_safe(current: &str, alternatives: &[Alternative]) -> (result: Option<String>)
    ensures
        result is Some <==> first_safe_from(current@, alternatives@, 0) is Some,
        result matches Some(surface) ==> first_safe_from(current@, alternatives@, 0) == Some(
            surface@,
        ),
{
    for index in 0..alternatives.len()
        invariant
            first_safe_from(current@, alternatives@, index as int) == first_safe_from(
                current@,
                alternatives@,
                0,
            ),
    {
        let alternative: &Alternative = &alternatives[index];
        if bounded_local_substitution(
            current,
            alternative.surface.as_str(),
            MAX_CHANGED_CHARACTERS,
        ) && preserves_kanji_from_hiragana_deconversion(current, alternative.surface.as_str())
            && !alternative.changes_name {
            return Some(alternative.surface.clone());
        }
    }
    None
}

/// The correction that the model's own way leads to: the first safe one of the narrow search,
/// else the first safe one of the wide search.
pub open spec fn prefix_correction(
    diagnostic: Option<PrefixDiagnostic>,
    current: Seq<char>,
    narrow: Seq<Alternative>,
    wide: Seq<Alternative>,
) -> Option<Seq<char>> {
    if !constrains(diagnostic) {
        None
    } else if first_safe_from(current, narrow, 0) is Some {
        first_safe_from(current, narrow, 0)
    } else {
        first_safe_from(current, wide, 0)
    }
}

pub fn constrains_conversion(diagnostic: &Option<PrefixDiagnostic>) -> (result: bool)
    ensures
        result == constrains(*diagnostic),
{
    match diagnostic {
        None => false,
        Some(found) => !found.alternative_is_eos && character_count(found.prefix.as_str())
            >= MIN_PREFIX_CHARACTERS && found.leads,
    }
}

pub fn apply_prefix_correction(
    diagnostic: &Option<PrefixDiagnostic>,
    current: &str,
    narrow: &[Alternative],
    wide: &[Alternative],
) -> (result: Option<String>)
    ensures
        result is Some <==> prefix_correction(*diagnostic, current@, narrow@, wide@) is Some,
        result matches Some(surface) ==> prefix_correction(*diagnostic, current@, narrow@, wide@)
            == Some(surface@),
{
    if !constrains_conversion(diagnostic) {
        return None;
    }
    match first_safe(current, narrow) {
        Some(surface) => Some(surface),
        None => first_safe(current, wide),
    }
}

/// A correction always differs from the conversion that it corrects, keeps its length and its
/// ASCII letters and digits at their places.
pub proof fn corrections_are_small(
    diagnostic: Option<PrefixDiagnostic>,
    current: Seq<char>,
    narrow: Seq<Alternative>,
    wide: Seq<Alternative>,
)
    requires
        prefix_correction(diagnostic, current, narrow, wide) is Some,
    ensures
        is_local_substitution(
            current,
            prefix_correction(diagnostic, current, narrow, wide)->0,
            MAX_CHANGED_CHARACTERS as nat,
        ),
        keeps_kanji(current, prefix_correction(diagnostic, current, narrow, wide)->0),
        prefix_correction(diagnostic, current, narrow, wide)->0 != current,
        prefix_correction(diagnostic, current, narrow, wide)->0.len() == current.len(),
{
    if first_safe_from(current, narrow, 0) is Some {
        first_safe_is_safe(current, narrow, 0);
    } else {
        first_safe_is_safe(current, wide, 0);
    }
    let corrected = prefix_correction(diagnostic, current, narrow, wide)->0;
    let (first, last) = choose|first: int, last: int| #[trigger]
        crate::correction::differ_exactly(current, corrected, first, last);
    assert(current[first] != corrected[first]);
}

proof fn first_safe_is_safe(current: Seq<char>, alternatives: Seq<Alternative>, index: int)
    requires
        0 <= index,
        first_safe_from(current, alternatives, index) is Some,
    ensures
        is_local_substitution(
            current,
            first_safe_from(current, alternatives, index)->0,
            MAX_CHANGED_CHARACTERS as nat,
        ),
        keeps_kanji(current, first_safe_from(current, alternatives, index)->0),
    decreases alternatives.len() - index,
{
    if !is_safe(current, alternatives[index]) {
        first_safe_is_safe(current, alternatives, index + 1);
    }
}

/// The second correction, unless it undoes the first one.
pub fn apply_followup_prefix(original: &str, corrected: &str, followup: Option<String>) -> (result:
    Option<String>)
    ensures
        result is Some <==> corrected@ != original@ && followup is Some && followup->0@
            != original@,
        result matches Some(surface) ==> surface@ == followup->0@,
{
    if same_text(corrected, original) {
        return None;
    }
    match followup {
        Some(alternative) => {
            if same_text(alternative.as_str(), original) {
                None
            } else {
                Some(alternative)
            }
        },
        None => None,
    }
}

// ---------------------------------------------------------------------------
// What the rules mean
// ---------------------------------------------------------------------------

/// The last of the best scores is chosen, unless it is not the first candidate and lacks the lead
/// that it needs: then the first candidate stays. Only a supplement in the last place needs the
/// larger lead.
pub proof fn the_best_score_is_chosen_if_it_leads(
    scores: Seq<i64>,
    leads: Seq<bool>,
    supplement_leads: Seq<bool>,
    last_is_supplement: bool,
    top: int,
)
    requires
        0 <= top < scores.len(),
        forall|k: int| 0 <= k < scores.len() ==> #[trigger] scores[k] <= scores[top],
        forall|k: int| top < k < scores.len() ==> (#[trigger] scores[k]) < scores[top],
    ensures
        ({
            let chosen = chosen_place(scores, leads, supplement_leads, last_is_supplement);
            let is_supplement = last_is_supplement && top == scores.len() - 1;
            &&& top == 0 ==> chosen == 0
            &&& top > 0 && is_supplement ==> chosen == (if supplement_leads[top] {
                top
            } else {
                0
            })
            &&& top > 0 && !is_supplement ==> chosen == (if leads[top] {
                top
            } else {
                0
            })
        }),
{
    crate::candidate::last_best_is_the_greatest(scores);
    let best = last_best(scores);
    assert(scores[best] <= scores[top] && scores[top] <= scores[best]);
    if best < top {
        assert(scores[top] < scores[best]);
    } else if top < best {
        assert(scores[best] < scores[top]);
    }
}

/// A reading of six to 32 characters is left to the model; from 20 characters on it is weighed as a
/// very long one if nothing stands behind it, and a lead is needed below nine characters or before a
/// right context.
pub proof fn readings_are_treated_by_their_length(length: int, right_context: Seq<char>)
    ensures
        is_generative_length(length) <==> 6 <= length <= 32,
        is_weighed_as_very_long(length, right_context) <==> length >= 20 && right_context.len() == 0,
        needs_a_lead(length, right_context) <==> length < 9 || right_context.len() > 0,
{
}

/// A generated surface joins the candidates only if the model came to an end, there are two
/// candidates and none of them is it, the reading has six to 32 characters, and the dictionary's
/// conversion costs at most 1000 more than the first candidate; up to 1500 more if it changes
/// several runs or leaves out characters, and for readings from nine characters on up to 2500 if it
/// leaves out characters and up to 3100 if it changes several runs.
pub proof fn a_generated_surface_joins_within_its_gap(
    length: int,
    scored: Seq<(Seq<char>, int)>,
    stopped: bool,
    backed: Option<(Seq<char>, int)>,
)
    requires
        forall|i: int| 0 <= i < scored.len() ==> i32::MIN <= (#[trigger] scored[i]).1 <= i32::MAX,
        backed matches Some(found) ==> i32::MIN <= found.1 <= i32::MAX,
    ensures
        joins_candidates(length, scored, stopped, backed) <==> {
            &&& stopped && scored.len() >= 2 && backed is Some && 6 <= length <= 32
            &&& forall|i: int|
                0 <= i < scored.len() ==> (#[trigger] scored[i]).0 != (backed->0).0
            &&& (backed->0).1 - scored[0].1 <= {
                let several = is_multi_region_substitution(scored[0].0, (backed->0).0);
                let shorter = is_surface_compression(scored[0].0, (backed->0).0);
                if length >= 9 && several {
                    3100int
                } else if length >= 9 && shorter {
                    2500
                } else if several || shorter {
                    1500
                } else {
                    1000
                }
            }
        },
{
    if scored.len() >= 2 && backed is Some {
        assert(i32::MIN <= scored[0].1 <= i32::MAX);
        let known = scored.map_values(|candidate: (Seq<char>, int)| candidate.0);
        if known.contains((backed->0).0) {
            let i = choose|i: int| 0 <= i < known.len() && known[i] == (backed->0).0;
            assert(scored[i].0 == (backed->0).0);
        }
        if exists|i: int| 0 <= i < scored.len() && (#[trigger] scored[i]).0 == (backed->0).0 {
            let i = choose|i: int| 0 <= i < scored.len() && (#[trigger] scored[i]).0 == (backed->0).0;
            assert(known[i] == (backed->0).0);
        }
    }
}

/// The conversion that backs a surface is the first one with exactly that surface.
pub proof fn the_first_exact_conversion_backs_a_surface(
    conversions: Seq<(Seq<char>, int)>,
    surface: Seq<char>,
    index: int,
)
    requires
        0 <= index < conversions.len(),
        conversions[index].0 == surface,
        forall|i: int| 0 <= i < index ==> (#[trigger] conversions[i]).0 != surface,
    ensures
        backed_conversion(conversions, surface) == Some(conversions[index]),
{
    let found = conversions.map_values(|candidate: (Seq<char>, int)| candidate.0);
    let wanted = seq![surface];
    crate::candidate::first_expected_is_the_first(found, wanted);
    assert(wanted.contains(found[index])) by {
        assert(wanted[0] == found[index]);
    }
    let place = first_expected(found, wanted)->0;
    assert(wanted.contains(found[place]));
    assert(found[place] == surface);
    if place < index {
        assert(conversions[place].0 != surface);
    } else if place > index {
        assert(!wanted.contains(found[index]));
    }
}

/// No conversion backs a surface that none of them has.
pub proof fn an_unknown_surface_is_not_backed(
    conversions: Seq<(Seq<char>, int)>,
    surface: Seq<char>,
)
    requires
        forall|i: int| 0 <= i < conversions.len() ==> (#[trigger] conversions[i]).0 != surface,
    ensures
        backed_conversion(conversions, surface) is None,
{
    let found = conversions.map_values(|candidate: (Seq<char>, int)| candidate.0);
    let wanted = seq![surface];
    crate::candidate::first_expected_is_the_first(found, wanted);
    if first_expected(found, wanted) is Some {
        let place = first_expected(found, wanted)->0;
        assert(wanted.contains(found[place]));
        assert(conversions[place].0 != surface);
    }
}

/// A supplement is the first conversion with exactly the surface that costs at most 3100 more than
/// the first candidate.
pub proof fn a_supplement_is_the_first_affordable_conversion(
    conversions: Seq<(Seq<char>, int)>,
    surface: Seq<char>,
    base_cost: int,
    index: int,
)
    requires
        0 <= index,
        i32::MIN <= base_cost <= i32::MAX,
        forall|i: int|
            0 <= i < conversions.len() ==> i32::MIN <= (#[trigger] conversions[i]).1 <= i32::MAX,
    ensures
        broad_conversion_from(conversions, surface, base_cost, index) matches Some(found)
            ==> found.0 == surface && found.1 - base_cost <= 3100 && exists|place: int|
            index <= place < conversions.len() && #[trigger] conversions[place] == found && forall|
                i: int,
            |
                index <= i < place ==> (#[trigger] conversions[i]).0 != surface || conversions[i].1
                    - base_cost > 3100,
        broad_conversion_from(conversions, surface, base_cost, index) is None ==> forall|i: int|
            index <= i < conversions.len() ==> (#[trigger] conversions[i]).0 != surface
                || conversions[i].1 - base_cost > 3100,
    decreases conversions.len() - index,
{
    if index < conversions.len() {
        assert(i32::MIN <= conversions[index].1 <= i32::MAX);
        if conversions[index].0 == surface && conversions[index].1 - base_cost <= 3100 {
            assert(broad_conversion_from(conversions, surface, base_cost, index) == Some(
                conversions[index],
            ));
        } else {
            a_supplement_is_the_first_affordable_conversion(
                conversions,
                surface,
                base_cost,
                index + 1,
            );
            if broad_conversion_from(conversions, surface, base_cost, index + 1) is Some {
                let found = broad_conversion_from(conversions, surface, base_cost, index + 1)->0;
                let place = choose|place: int|
                    index + 1 <= place < conversions.len() && #[trigger] conversions[place] == found
                        && forall|i: int|
                        index + 1 <= i < place ==> (#[trigger] conversions[i]).0 != surface
                            || conversions[i].1 - base_cost > 3100;
                assert forall|i: int| index <= i < place implies (#[trigger] conversions[i]).0
                    != surface || conversions[i].1 - base_cost > 3100 by {}
            }
        }
    }
}

/// Whether an alternative may replace a conversion: it changes one run of at most two characters,
/// writes no kanji as hiragana, and changes no name.
pub open spec fn may_replace(current: Seq<char>, alternative: Alternative) -> bool {
    &&& is_local_substitution(current, alternative.surface@, 2)
    &&& keeps_kanji(current, alternative.surface@)
    &&& !alternative.changes_name
}

/// A prefix that the model prefers corrects the conversion only if it leads, is not the end of the
/// text, and has at least four characters. The correction is then the first alternative of the
/// narrow search that may replace the conversion, and only without one the first of the wide search.
pub proof fn the_first_safe_alternative_corrects(
    diagnostic: Option<PrefixDiagnostic>,
    current: Seq<char>,
    narrow: Seq<Alternative>,
    wide: Seq<Alternative>,
)
    ensures
        !(diagnostic is Some && diagnostic->0.leads && !diagnostic->0.alternative_is_eos
            && diagnostic->0.prefix@.len() >= 4) ==> prefix_correction(
            diagnostic,
            current,
            narrow,
            wide,
        ) is None,
        diagnostic is Some && diagnostic->0.leads && !diagnostic->0.alternative_is_eos
            && diagnostic->0.prefix@.len() >= 4 ==> {
            let found = prefix_correction(diagnostic, current, narrow, wide);
            &&& forall|place: int|
                is_first_replacement(current, narrow, place) ==> found == Some(
                    (#[trigger] narrow[place]).surface@,
                )
            &&& (forall|i: int|
                0 <= i < narrow.len() ==> !may_replace(current, #[trigger] narrow[i])) ==> {
                &&& forall|place: int|
                    is_first_replacement(current, wide, place) ==> found == Some(
                        (#[trigger] wide[place]).surface@,
                    )
                &&& (forall|i: int|
                    0 <= i < wide.len() ==> !may_replace(current, #[trigger] wide[i])) ==> found
                    is None
            }
        },
{
    the_first_safe_alternative_is_found(current, narrow, 0);
    the_first_safe_alternative_is_found(current, wide, 0);
}

/// Whether the alternative at the place is the first that may replace the conversion.
pub open spec fn is_first_replacement(
    current: Seq<char>,
    alternatives: Seq<Alternative>,
    place: int,
) -> bool {
    &&& 0 <= place < alternatives.len()
    &&& may_replace(current, alternatives[place])
    &&& forall|i: int| 0 <= i < place ==> !may_replace(current, #[trigger] alternatives[i])
}

proof fn the_first_safe_alternative_is_found(
    current: Seq<char>,
    alternatives: Seq<Alternative>,
    index: int,
)
    requires
        0 <= index <= alternatives.len(),
        forall|i: int| 0 <= i < index ==> !may_replace(current, #[trigger] alternatives[i]),
    ensures
        forall|place: int|
            is_first_replacement(current, alternatives, place) ==> first_safe_from(
                current,
                alternatives,
                index,
            ) == Some((#[trigger] alternatives[place]).surface@),
        (forall|i: int| 0 <= i < alternatives.len() ==> !may_replace(current, #[trigger] alternatives[i]))
            ==> first_safe_from(current, alternatives, index) is None,
    decreases alternatives.len() - index,
{
    if index < alternatives.len() && !is_safe(current, alternatives[index]) {
        assert(!may_replace(current, alternatives[index]));
        the_first_safe_alternative_is_found(current, alternatives, index + 1);
    } else if index < alternatives.len() {
        assert(may_replace(current, alternatives[index]));
        assert forall|place: int| is_first_replacement(
            current,
            alternatives,
            place,
        ) implies first_safe_from(current, alternatives, index) == Some(
            (#[trigger] alternatives[place]).surface@,
        ) by {
            if place < index {
                assert(!may_replace(current, alternatives[place]));
            } else if place > index {
                assert(!may_replace(current, alternatives[index]));
            }
        }
    }
}

} // verus!
