//! How far the dictionary offers the surfaces that are expected of it.

use vstd::prelude::*;
use vstd::string::*;

use crate::evaluation_options::optional_text;
use crate::recall_options::RecallOptions;
use crate::tables::RecallItem;
use crate::text::{
    character_count, decimal, decimal_text, holds_text, joined, same_text, texts,
};

verus! {

/// How many entries of each part are combined.
pub const COMPOUND_ENTRIES_PER_SEGMENT: usize = 8;

/// How many combined candidates are looked at.
pub const COMPOUND_CANDIDATE_LIMIT: usize = 32;

/// How many entries of each fixed part are combined.
pub const FIXED_SEGMENT_ENTRIES_PER_SEGMENT: usize = 8;

/// How many candidates with fixed parts are looked at.
pub const FIXED_SEGMENT_CANDIDATE_LIMIT: usize = 22;

/// Up to this many characters a reading is searched for more candidates.
pub const MAX_EXPANDED_READING_CHARACTERS: usize = 8;

/// Where an expected surface is found first.
#[derive(Clone, Copy, Debug, PartialEq, Eq, Structural)]
pub enum RecallStage {
    /// Among the first candidates.
    Initial,
    /// In a wider search.
    Expanded,
    /// Among combinations of words.
    Compound,
    /// Among variants with the parts fixed.
    FixedSegment,
    /// Nowhere, though it is made of known words.
    KnownComponents,
    /// Nowhere.
    Missing,
}

/// Whether short readings are searched for more candidates, and long ones with the parts
/// fixed.
pub fn searches(reading: &str) -> (result: (bool, bool))
    ensures
        result.0 == (reading@.len() <= MAX_EXPANDED_READING_CHARACTERS),
        result.1 == (reading@.len() > MAX_EXPANDED_READING_CHARACTERS),
{
    let is_short: bool = character_count(reading) <= MAX_EXPANDED_READING_CHARACTERS;
    (is_short, !is_short)
}

/// Where the expected surface is found first.
pub open spec fn stage_of(
    expected: Seq<char>,
    initial: Seq<Seq<char>>,
    expanded: Seq<Seq<char>>,
    compound: Seq<Seq<char>>,
    fixed_segment: Seq<Seq<char>>,
) -> RecallStage {
    if initial.contains(expected) {
        RecallStage::Initial
    } else if expanded.contains(expected) {
        RecallStage::Expanded
    } else if compound.contains(expected) {
        RecallStage::Compound
    } else if fixed_segment.contains(expected) {
        RecallStage::FixedSegment
    } else {
        RecallStage::Missing
    }
}

pub fn classify(
    expected: &str,
    initial: &[String],
    expanded: &[String],
    compound: &[String],
    fixed_segment: &[String],
) -> (result: RecallStage)
    ensures
        result == stage_of(
            expected@,
            texts(initial@),
            texts(expanded@),
            texts(compound@),
            texts(fixed_segment@),
        ),
{
    if holds_text(initial, expected) {
        RecallStage::Initial
    } else if holds_text(expanded, expected) {
        RecallStage::Expanded
    } else if holds_text(compound, expected) {
        RecallStage::Compound
    } else if holds_text(fixed_segment, expected) {
        RecallStage::FixedSegment
    } else {
        RecallStage::Missing
    }
}

/// Whether the surface was not found.
pub open spec fn unrecalled(stage: RecallStage) -> bool {
    stage == RecallStage::KnownComponents || stage == RecallStage::Missing
}

pub fn is_unrecalled(stage: RecallStage) -> (result: bool)
    ensures
        result == unrecalled(stage),
{
    stage == RecallStage::KnownComponents || stage == RecallStage::Missing
}

/// What was found for an item.
#[derive(Debug, PartialEq, Eq)]
pub struct ItemResult {
    pub reading: String,
    pub surface: String,
    pub stage: RecallStage,
    pub top1_surface: Option<String>,
    pub top1_correct: bool,
    /// The nanoseconds that the first search took.
    pub initial_latency: u64,
}

/// What counts of a result.
pub ghost struct ResultView {
    pub stage: RecallStage,
    pub top1_surface: Option<Seq<char>>,
    pub top1_correct: bool,
}

impl View for ItemResult {
    type V = ResultView;

    open spec fn view(&self) -> ResultView {
        ResultView {
            stage: self.stage,
            top1_surface: optional_text(self.top1_surface),
            top1_correct: self.top1_correct,
        }
    }
}

pub open spec fn result_views(results: Seq<ItemResult>) -> Seq<ResultView> {
    Seq::new(results.len(), |i: int| results[i]@)
}

/// What a dictionary offers for a reading: the surfaces of each search, and whether the
/// expected surface is made of known words.
#[derive(Debug, PartialEq, Eq)]
pub struct Searched {
    pub initial: Vec<String>,
    pub expanded: Vec<String>,
    pub compound: Vec<String>,
    pub fixed_segment: Vec<String>,
    pub known_components: bool,
    pub initial_latency: u64,
}

/// What was found for an item.
pub open spec fn result_of(surface: Seq<char>, found: Searched) -> ResultView {
    let stage = stage_of(
        surface,
        texts(found.initial@),
        texts(found.expanded@),
        texts(found.compound@),
        texts(found.fixed_segment@),
    );
    ResultView {
        stage: if stage == RecallStage::Missing && found.known_components {
            RecallStage::KnownComponents
        } else {
            stage
        },
        top1_surface: if found.initial@.len() > 0 {
            Some(found.initial@[0]@)
        } else {
            None
        },
        top1_correct: found.initial@.len() > 0 && found.initial@[0]@ == surface,
    }
}

pub fn evaluate_item(item: &RecallItem, found: &Searched) -> (result: ItemResult)
    ensures
        result@ == result_of(item.surface@, *found),
        result.reading@ == item.reading@,
        result.surface@ == item.surface@,
        result.initial_latency == found.initial_latency,
{
    let stage: RecallStage = classify(
        item.surface.as_str(),
        found.initial.as_slice(),
        found.expanded.as_slice(),
        found.compound.as_slice(),
        found.fixed_segment.as_slice(),
    );
    let stage: RecallStage = if stage == RecallStage::Missing && found.known_components {
        RecallStage::KnownComponents
    } else {
        stage
    };
    let (top1_surface, top1_correct): (Option<String>, bool) = if found.initial.len() > 0 {
        (
            Some(found.initial[0].clone()),
            same_text(found.initial[0].as_str(), item.surface.as_str()),
        )
    } else {
        (None, false)
    };
    ItemResult {
        reading: item.reading.clone(),
        surface: item.surface.clone(),
        stage,
        top1_surface,
        top1_correct,
        initial_latency: found.initial_latency,
    }
}

/// A surface among the first candidates is found at the first stage; the first candidate is
/// right only if it is found there.
pub proof fn a_right_first_candidate_is_recalled(surface: Seq<char>, found: Searched)
    ensures
        result_of(surface, found).top1_correct ==> result_of(surface, found).stage
            == RecallStage::Initial,
{
    if found.initial@.len() > 0 {
        assert(texts(found.initial@)[0] == found.initial@[0]@);
    }
}

// ---------------------------------------------------------------------------
// Counting
// ---------------------------------------------------------------------------

/// The number of results at a stage.
pub open spec fn count_stage_of(results: Seq<ResultView>, stage: RecallStage) -> nat
    decreases results.len(),
{
    if results.len() == 0 {
        0
    } else {
        count_stage_of(results.drop_last(), stage) + (if results.last().stage == stage {
            1nat
        } else {
            0
        })
    }
}

/// The number of results with a right first candidate.
pub open spec fn count_top1(results: Seq<ResultView>) -> nat
    decreases results.len(),
{
    if results.len() == 0 {
        0
    } else {
        count_top1(results.drop_last()) + (if results.last().top1_correct {
            1nat
        } else {
            0
        })
    }
}

/// Every result is at exactly one stage.
pub proof fn the_stages_make_up_the_total(results: Seq<ResultView>)
    ensures
        count_stage_of(results, RecallStage::Initial) + count_stage_of(
            results,
            RecallStage::Expanded,
        ) + count_stage_of(results, RecallStage::Compound) + count_stage_of(
            results,
            RecallStage::FixedSegment,
        ) + count_stage_of(results, RecallStage::KnownComponents) + count_stage_of(
            results,
            RecallStage::Missing,
        ) == results.len(),
        count_top1(results) <= results.len(),
    decreases results.len(),
{
    if results.len() > 0 {
        the_stages_make_up_the_total(results.drop_last());
    }
}

pub fn count_stage(results: &[ItemResult], stage: RecallStage) -> (result: usize)
    ensures
        result == count_stage_of(result_views(results@), stage),
{
    let ghost all = result_views(results@);
    let mut result: usize = 0;
    assert(all.take(0) =~= Seq::<ResultView>::empty());
    for index in 0..results.len()
        invariant
            all == result_views(results@),
            result == count_stage_of(all.take(index as int), stage),
            result <= index,
    {
        assert(all.take(index + 1).drop_last() =~= all.take(index as int));
        assert(all.take(index + 1).last() == results@[index as int]@);
        if results[index].stage == stage {
            result += 1;
        }
    }
    assert(all.take(all.len() as int) =~= all);
    result
}

fn count_right(results: &[ItemResult]) -> (result: usize)
    ensures
        result == count_top1(result_views(results@)),
{
    let ghost all = result_views(results@);
    let mut result: usize = 0;
    assert(all.take(0) =~= Seq::<ResultView>::empty());
    for index in 0..results.len()
        invariant
            all == result_views(results@),
            result == count_top1(all.take(index as int)),
            result <= index,
    {
        assert(all.take(index + 1).drop_last() =~= all.take(index as int));
        assert(all.take(index + 1).last() == results@[index as int]@);
        if results[index].top1_correct {
            result += 1;
        }
    }
    assert(all.take(all.len() as int) =~= all);
    result
}

/// What an added dictionary changes.
#[derive(Clone, Copy, Debug, PartialEq, Eq, Structural)]
pub enum Change {
    Recovered,
    Regressed,
    Top1Improved,
    Top1Regressed,
    Top1Changed,
}

/// Whether a result changed in this way.
pub open spec fn has_changed(change: Change, current: ResultView, original: ResultView) -> bool {
    match change {
        Change::Recovered => unrecalled(original.stage) && !unrecalled(current.stage),
        Change::Regressed => !unrecalled(original.stage) && unrecalled(current.stage),
        Change::Top1Improved => !original.top1_correct && current.top1_correct,
        Change::Top1Regressed => original.top1_correct && !current.top1_correct,
        Change::Top1Changed => original.top1_surface != current.top1_surface,
    }
}

/// The number of results that changed in this way.
pub open spec fn count_changes(
    change: Change,
    current: Seq<ResultView>,
    original: Seq<ResultView>,
) -> nat
    decreases current.len(),
{
    if current.len() == 0 || original.len() == 0 {
        0
    } else {
        count_changes(change, current.drop_last(), original.drop_last()) + (if has_changed(
            change,
            current.last(),
            original.last(),
        ) {
            1nat
        } else {
            0
        })
    }
}

/// The number of results that were not found.
pub open spec fn count_missing(results: Seq<ResultView>) -> nat {
    count_stage_of(results, RecallStage::KnownComponents) + count_stage_of(
        results,
        RecallStage::Missing,
    )
}

/// What is missing with an added dictionary is what was missing before, without what it
/// recovers and with what it loses; and likewise for right first candidates.
pub proof fn recovery_and_regression_explain_the_change(
    current: Seq<ResultView>,
    original: Seq<ResultView>,
)
    requires
        current.len() == original.len(),
    ensures
        count_missing(current) + count_changes(Change::Recovered, current, original)
            == count_missing(original) + count_changes(Change::Regressed, current, original),
        count_top1(current) + count_changes(Change::Top1Regressed, current, original)
            == count_top1(original) + count_changes(Change::Top1Improved, current, original),
        count_changes(Change::Recovered, current, original) <= current.len(),
        count_changes(Change::Regressed, current, original) <= current.len(),
        count_changes(Change::Top1Improved, current, original) <= current.len(),
        count_changes(Change::Top1Regressed, current, original) <= current.len(),
        count_changes(Change::Top1Changed, current, original) <= current.len(),
    decreases current.len(),
{
    if current.len() > 0 {
        recovery_and_regression_explain_the_change(current.drop_last(), original.drop_last());
    }
}

/// What was found for some surfaces.
pub open spec fn results_of(surfaces: Seq<Seq<char>>, found: Seq<Searched>) -> Seq<ResultView> {
    Seq::new(surfaces.len(), |i: int| result_of(surfaces[i], found[i]))
}

/// A first candidate that is right on one side only is another one there: those that improved and
/// those that regressed are together at most those that changed.
pub proof fn first_candidates_change_to_improve_or_regress(
    surfaces: Seq<Seq<char>>,
    current: Seq<Searched>,
    original: Seq<Searched>,
)
    requires
        current.len() == surfaces.len(),
        original.len() == surfaces.len(),
    ensures
        ({
            let now = results_of(surfaces, current);
            let before = results_of(surfaces, original);
            count_changes(Change::Top1Improved, now, before) + count_changes(
                Change::Top1Regressed,
                now,
                before,
            ) <= count_changes(Change::Top1Changed, now, before)
        }),
    decreases surfaces.len(),
{
    if surfaces.len() > 0 {
        let rest = surfaces.drop_last();
        first_candidates_change_to_improve_or_regress(
            rest,
            current.drop_last(),
            original.drop_last(),
        );
        assert(results_of(surfaces, current).drop_last() =~= results_of(rest, current.drop_last()));
        assert(results_of(surfaces, original).drop_last() =~= results_of(
            rest,
            original.drop_last(),
        ));
    }
}

fn same_surface(left: &Option<String>, right: &Option<String>) -> (result: bool)
    ensures
        result == (optional_text(*left) == optional_text(*right)),
{
    match (left, right) {
        (Some(first), Some(second)) => same_text(first.as_str(), second.as_str()),
        (None, None) => true,
        _ => false,
    }
}

fn changed(change: Change, current: &ItemResult, original: &ItemResult) -> (result: bool)
    ensures
        result == has_changed(change, current@, original@),
{
    match change {
        Change::Recovered => is_unrecalled(original.stage) && !is_unrecalled(current.stage),
        Change::Regressed => !is_unrecalled(original.stage) && is_unrecalled(current.stage),
        Change::Top1Improved => !original.top1_correct && current.top1_correct,
        Change::Top1Regressed => original.top1_correct && !current.top1_correct,
        Change::Top1Changed => !same_surface(&original.top1_surface, &current.top1_surface),
    }
}

fn number_of_changes(change: Change, current: &[ItemResult], original: &[ItemResult]) -> (result:
    usize)
    requires
        current@.len() == original@.len(),
    ensures
        result == count_changes(change, result_views(current@), result_views(original@)),
{
    let ghost now = result_views(current@);
    let ghost before = result_views(original@);
    let mut result: usize = 0;
    assert(now.take(0) =~= Seq::<ResultView>::empty());
    for index in 0..current.len()
        invariant
            current@.len() == original@.len(),
            now == result_views(current@),
            before == result_views(original@),
            result == count_changes(change, now.take(index as int), before.take(index as int)),
            result <= index,
    {
        assert(now.take(index + 1).drop_last() =~= now.take(index as int));
        assert(before.take(index + 1).drop_last() =~= before.take(index as int));
        if changed(change, &current[index], &original[index]) {
            result += 1;
        }
    }
    assert(now.take(now.len() as int) =~= now);
    assert(before.take(before.len() as int) =~= before);
    result
}

// ---------------------------------------------------------------------------
// The report
// ---------------------------------------------------------------------------

/// What a recall evaluation found.
#[derive(Debug, PartialEq, Eq)]
pub struct RecallReport {
    pub total: usize,
    pub initial: usize,
    pub expanded: usize,
    pub compound: usize,
    pub fixed_segment: usize,
    pub known_components: usize,
    pub unknown_components: usize,
    pub missing: usize,
    pub baseline_missing: usize,
    pub dictionary_recovered: usize,
    pub dictionary_regressed: usize,
    pub top1_correct: usize,
    pub baseline_top1_correct: usize,
    pub dictionary_top1_improved: usize,
    pub dictionary_top1_regressed: usize,
    pub dictionary_top1_changed: usize,
    pub dictionary_bytes: u64,
    pub results: Vec<ItemResult>,
}

/// Whether the report counts its results, without a dictionary to compare with.
pub open spec fn counts_results(report: RecallReport, results: Seq<ResultView>) -> bool {
    &&& report.total == results.len()
    &&& report.initial == count_stage_of(results, RecallStage::Initial)
    &&& report.expanded == count_stage_of(results, RecallStage::Expanded)
    &&& report.compound == count_stage_of(results, RecallStage::Compound)
    &&& report.fixed_segment == count_stage_of(results, RecallStage::FixedSegment)
    &&& report.known_components == count_stage_of(results, RecallStage::KnownComponents)
    &&& report.unknown_components == count_stage_of(results, RecallStage::Missing)
    &&& report.missing == count_missing(results)
    &&& report.top1_correct == count_top1(results)
}

/// Counts what was found.
pub fn report_on(results: Vec<ItemResult>) -> (result: RecallReport)
    ensures
        result.results == results,
        counts_results(result, result_views(results@)),
        result.baseline_missing == result.missing,
        result.baseline_top1_correct == result.top1_correct,
        result.dictionary_recovered == 0,
        result.dictionary_regressed == 0,
        result.dictionary_top1_improved == 0,
        result.dictionary_top1_regressed == 0,
        result.dictionary_top1_changed == 0,
        result.dictionary_bytes == 0,
{
    let known_components: usize = count_stage(results.as_slice(), RecallStage::KnownComponents);
    let unknown_components: usize = count_stage(results.as_slice(), RecallStage::Missing);
    let top1_correct: usize = count_right(results.as_slice());
    let total: usize = results.len();
    proof {
        the_stages_make_up_the_total(result_views(results@));
    }
    let missing: usize = known_components + unknown_components;
    RecallReport {
        total,
        initial: count_stage(results.as_slice(), RecallStage::Initial),
        expanded: count_stage(results.as_slice(), RecallStage::Expanded),
        compound: count_stage(results.as_slice(), RecallStage::Compound),
        fixed_segment: count_stage(results.as_slice(), RecallStage::FixedSegment),
        known_components,
        unknown_components,
        missing,
        baseline_missing: missing,
        dictionary_recovered: 0,
        dictionary_regressed: 0,
        top1_correct,
        baseline_top1_correct: top1_correct,
        dictionary_top1_improved: 0,
        dictionary_top1_regressed: 0,
        dictionary_top1_changed: 0,
        dictionary_bytes: 0,
        results,
    }
}

impl RecallReport {
    /// The report with the size of the added dictionaries.
    pub fn with_dictionary_bytes(self, dictionary_bytes: u64) -> (result: Self)
        ensures
            result == (RecallReport { dictionary_bytes, ..self }),
    {
        let mut result: RecallReport = self;
        result.dictionary_bytes = dictionary_bytes;
        result
    }

    /// The report compared with one on the same items without the added dictionaries.
    pub fn with_dictionary_baseline(self, baseline: &Self) -> (result: Self)
        requires
            self.results@.len() == baseline.results@.len(),
            self.dictionary_recovered + self.results@.len() <= usize::MAX,
            self.dictionary_regressed + self.results@.len() <= usize::MAX,
            self.dictionary_top1_improved + self.results@.len() <= usize::MAX,
            self.dictionary_top1_regressed + self.results@.len() <= usize::MAX,
            self.dictionary_top1_changed + self.results@.len() <= usize::MAX,
        ensures
            ({
                let current = result_views(self.results@);
                let original = result_views(baseline.results@);
                result == (RecallReport {
                    baseline_missing: baseline.missing,
                    baseline_top1_correct: baseline.top1_correct,
                    dictionary_recovered: (self.dictionary_recovered + count_changes(
                        Change::Recovered,
                        current,
                        original,
                    )) as usize,
                    dictionary_regressed: (self.dictionary_regressed + count_changes(
                        Change::Regressed,
                        current,
                        original,
                    )) as usize,
                    dictionary_top1_improved: (self.dictionary_top1_improved + count_changes(
                        Change::Top1Improved,
                        current,
                        original,
                    )) as usize,
                    dictionary_top1_regressed: (self.dictionary_top1_regressed + count_changes(
                        Change::Top1Regressed,
                        current,
                        original,
                    )) as usize,
                    dictionary_top1_changed: (self.dictionary_top1_changed + count_changes(
                        Change::Top1Changed,
                        current,
                        original,
                    )) as usize,
                    ..self
                })
            }),
    {
        proof {
            recovery_and_regression_explain_the_change(
                result_views(self.results@),
                result_views(baseline.results@),
            );
        }
        let mut result: RecallReport = self;
        result.baseline_missing = baseline.missing;
        result.baseline_top1_correct = baseline.top1_correct;
        result.dictionary_recovered = result.dictionary_recovered + number_of_changes(
            Change::Recovered,
            result.results.as_slice(),
            baseline.results.as_slice(),
        );
        result.dictionary_regressed = result.dictionary_regressed + number_of_changes(
            Change::Regressed,
            result.results.as_slice(),
            baseline.results.as_slice(),
        );
        result.dictionary_top1_improved = result.dictionary_top1_improved + number_of_changes(
            Change::Top1Improved,
            result.results.as_slice(),
            baseline.results.as_slice(),
        );
        result.dictionary_top1_regressed = result.dictionary_top1_regressed + number_of_changes(
            Change::Top1Regressed,
            result.results.as_slice(),
            baseline.results.as_slice(),
        );
        result.dictionary_top1_changed = result.dictionary_top1_changed + number_of_changes(
            Change::Top1Changed,
            result.results.as_slice(),
            baseline.results.as_slice(),
        );
        result
    }

    /// How many results are shown with the report: all, unless fewer are asked for.
    pub fn shown_results(&self, details: Option<usize>) -> (result: usize)
        ensures
            result == (match details {
                Some(limit) => if limit <= self.results@.len() {
                    limit as int
                } else {
                    self.results@.len() as int
                },
                None => self.results@.len() as int,
            }),
    {
        match details {
            Some(limit) => if limit <= self.results.len() {
                limit
            } else {
                self.results.len()
            },
            None => self.results.len(),
        }
    }
}

/// The numbers of the first results that were not found among the first candidates, at most
/// `limit`.
pub open spec fn detailed_before(results: Seq<ResultView>, limit: int, count: int) -> Seq<int>
    decreases count,
{
    if count <= 0 {
        Seq::empty()
    } else {
        let before = detailed_before(results, limit, count - 1);
        if before.len() < limit && results[count - 1].stage != RecallStage::Initial {
            before.push(count - 1)
        } else {
            before
        }
    }
}

/// The numbers of the results that are printed.
pub fn detailed_results(report: &RecallReport, limit: usize) -> (result: Vec<usize>)
    ensures
        result@.map_values(|place: usize| place as int) == detailed_before(
            result_views(report.results@),
            limit as int,
            report.results@.len() as int,
        ),
{
    let ghost all = result_views(report.results@);
    let mut result: Vec<usize> = Vec::new();
    assert(result@.map_values(|place: usize| place as int) =~= Seq::<int>::empty());
    for index in 0..report.results.len()
        invariant
            all == result_views(report.results@),
            result@.map_values(|place: usize| place as int) == detailed_before(
                all,
                limit as int,
                index as int,
            ),
    {
        assert(all[index as int] == report.results@[index as int]@);
        let ghost before = result@.map_values(|place: usize| place as int);
        assert(before.len() == result@.len());
        if result.len() < limit && report.results[index].stage != RecallStage::Initial {
            result.push(index);
            assert(result@.map_values(|place: usize| place as int) =~= before.push(index as int));
        }
    }
    result
}

/// The message on a count that breaks its limit.
pub open spec fn limit_message(
    start: Seq<char>,
    count: nat,
    middle: Seq<char>,
    limit: nat,
) -> Seq<char> {
    start + decimal(count) + middle + decimal(limit)
}

fn message_on_limit(start: &str, count: u64, middle: &str, limit: u64) -> (result: String)
    ensures
        result@ == limit_message(start@, count as nat, middle@, limit as nat),
{
    let counted: String = decimal_text(count);
    let first: String = joined(start, counted.as_str());
    let second: String = joined(first.as_str(), middle);
    let limited: String = decimal_text(limit);
    joined(second.as_str(), limited.as_str())
}

/// The first limit that the report breaks. `latency` is the message on the latency, if it
/// breaks its limit.
pub open spec fn broken_limit(
    options: RecallOptions,
    report: RecallReport,
    latency: Option<Seq<char>>,
) -> Option<Seq<char>> {
    if options.max_missing is Some && report.missing > options.max_missing->0 {
        Some(
            limit_message(
                "missing candidate count "@,
                report.missing as nat,
                " exceeds --max-missing "@,
                options.max_missing->0 as nat,
            ),
        )
    } else if options.min_recovered is Some && report.dictionary_recovered
        < options.min_recovered->0 {
        Some(
            limit_message(
                "external dictionary recovered "@,
                report.dictionary_recovered as nat,
                " candidates, below --min-recovered "@,
                options.min_recovered->0 as nat,
            ),
        )
    } else if options.max_regressed is Some && report.dictionary_regressed
        > options.max_regressed->0 {
        Some(
            limit_message(
                "external dictionary regressed "@,
                report.dictionary_regressed as nat,
                " candidates, exceeding --max-regressed "@,
                options.max_regressed->0 as nat,
            ),
        )
    } else if options.max_top1_regressed is Some && report.dictionary_top1_regressed
        > options.max_top1_regressed->0 {
        Some(
            limit_message(
                "external dictionary regressed "@,
                report.dictionary_top1_regressed as nat,
                " top-1 candidates, exceeding --max-top1-regressed "@,
                options.max_top1_regressed->0 as nat,
            ),
        )
    } else if options.max_top1_changed is Some && report.dictionary_top1_changed
        > options.max_top1_changed->0 {
        Some(
            limit_message(
                "external dictionary changed "@,
                report.dictionary_top1_changed as nat,
                " top-1 surfaces, exceeding --max-top1-changed "@,
                options.max_top1_changed->0 as nat,
            ),
        )
    } else if latency is Some {
        latency
    } else if options.max_dictionary_bytes is Some && report.dictionary_bytes
        > options.max_dictionary_bytes->0 {
        Some(
            limit_message(
                "external dictionaries total "@,
                report.dictionary_bytes as nat,
                " bytes, exceeding --max-dictionary-bytes "@,
                options.max_dictionary_bytes->0 as nat,
            ),
        )
    } else {
        None
    }
}

/// Whether the report keeps the limits. `latency` is the message on the latency, if it breaks
/// its limit.
pub fn enforce_thresholds(options: &RecallOptions, report: &RecallReport, latency: Option<String>) -> (
    result: Result<(), String>)
    ensures
        match broken_limit(*options, *report, optional_text(latency)) {
            Some(error) => result is Err && result->Err_0@ == error,
            None => result is Ok,
        },
{
    if let Some(limit) = options.max_missing {
        if report.missing > limit {
            return Err(
                message_on_limit(
                    "missing candidate count ",
                    report.missing as u64,
                    " exceeds --max-missing ",
                    limit as u64,
                ),
            );
        }
    }
    if let Some(limit) = options.min_recovered {
        if report.dictionary_recovered < limit {
            return Err(
                message_on_limit(
                    "external dictionary recovered ",
                    report.dictionary_recovered as u64,
                    " candidates, below --min-recovered ",
                    limit as u64,
                ),
            );
        }
    }
    if let Some(limit) = options.max_regressed {
        if report.dictionary_regressed > limit {
            return Err(
                message_on_limit(
                    "external dictionary regressed ",
                    report.dictionary_regressed as u64,
                    " candidates, exceeding --max-regressed ",
                    limit as u64,
                ),
            );
        }
    }
    if let Some(limit) = options.max_top1_regressed {
        if report.dictionary_top1_regressed > limit {
            return Err(
                message_on_limit(
                    "external dictionary regressed ",
                    report.dictionary_top1_regressed as u64,
                    " top-1 candidates, exceeding --max-top1-regressed ",
                    limit as u64,
                ),
            );
        }
    }
    if let Some(limit) = options.max_top1_changed {
        if report.dictionary_top1_changed > limit {
            return Err(
                message_on_limit(
                    "external dictionary changed ",
                    report.dictionary_top1_changed as u64,
                    " top-1 surfaces, exceeding --max-top1-changed ",
                    limit as u64,
                ),
            );
        }
    }
    match latency {
        Some(error) => return Err(error),
        None => {},
    }
    if let Some(limit) = options.max_dictionary_bytes {
        if report.dictionary_bytes > limit {
            return Err(
                message_on_limit(
                    "external dictionaries total ",
                    report.dictionary_bytes,
                    " bytes, exceeding --max-dictionary-bytes ",
                    limit,
                ),
            );
        }
    }
    Ok(())
}

/// The size of the added dictionaries with one more.
pub fn add_dictionary_bytes(total: u64, added: u64) -> (result: Result<u64, String>)
    ensures
        result is Ok <==> total + added <= u64::MAX,
        result matches Ok(sum) ==> sum == total + added,
        result matches Err(error) ==> error@ == "external dictionary byte size overflowed"@,
{
    match total.checked_add(added) {
        Some(sum) => Ok(sum),
        None => Err("external dictionary byte size overflowed".to_owned()),
    }
}

// ---------------------------------------------------------------------------
// What the stages mean
// ---------------------------------------------------------------------------

/// A surface is recalled at the first search that finds it: among the first candidates, the expanded
/// ones, the compounds, or the variants of fixed segments. One that none finds is missing, unless it
/// is made of known components.
pub proof fn a_surface_is_recalled_by_the_first_search(surface: Seq<char>, found: Searched)
    ensures
        ({
            let stage = result_of(surface, found).stage;
            let first = texts(found.initial@).contains(surface);
            let second = texts(found.expanded@).contains(surface);
            let third = texts(found.compound@).contains(surface);
            let fourth = texts(found.fixed_segment@).contains(surface);
            &&& first <==> stage == RecallStage::Initial
            &&& !first && second <==> stage == RecallStage::Expanded
            &&& !first && !second && third <==> stage == RecallStage::Compound
            &&& !first && !second && !third && fourth <==> stage == RecallStage::FixedSegment
            &&& !first && !second && !third && !fourth && found.known_components <==> stage
                == RecallStage::KnownComponents
            &&& !first && !second && !third && !fourth && !found.known_components <==> stage
                == RecallStage::Missing
        }),
        found.initial@.len() > 0 ==> result_of(surface, found).top1_surface == Some(
            found.initial@[0]@,
        ) && (result_of(surface, found).top1_correct <==> found.initial@[0]@ == surface),
        found.initial@.len() == 0 ==> result_of(surface, found).top1_surface is None && !result_of(
            surface,
            found,
        ).top1_correct,
{
}

/// Counts of results add up, and one result counts at its own stage only.
pub proof fn recalled_results_add_up(
    left: Seq<ResultView>,
    right: Seq<ResultView>,
    one: ResultView,
    stage: RecallStage,
)
    ensures
        count_stage_of(left + right, stage) == count_stage_of(left, stage) + count_stage_of(
            right,
            stage,
        ),
        count_top1(left + right) == count_top1(left) + count_top1(right),
        count_stage_of(seq![one], stage) == (if one.stage == stage {
            1nat
        } else {
            0
        }),
        count_top1(seq![one]) == (if one.top1_correct {
            1nat
        } else {
            0
        }),
    decreases right.len(),
{
    let nothing = Seq::<ResultView>::empty();
    assert(seq![one].drop_last() =~= nothing);
    assert(seq![one].last() == one);
    assert(count_stage_of(nothing, stage) == 0);
    assert(count_top1(nothing) == 0);
    if right.len() == 0 {
        assert(left + right =~= left);
    } else {
        recalled_results_add_up(left, right.drop_last(), one, stage);
        assert((left + right).drop_last() =~= left + right.drop_last());
    }
}

/// One result is recovered if only the added dictionary finds it, and lost if only the original
/// does; its first candidate improves if it is right only now, regresses if it was right only before,
/// and changes if it is another one.
pub proof fn one_result_changes_in_these_ways(current: ResultView, original: ResultView)
    ensures
        ({
            let found = |result: ResultView|
                result.stage == RecallStage::Initial || result.stage == RecallStage::Expanded
                    || result.stage == RecallStage::Compound || result.stage
                    == RecallStage::FixedSegment;
            let one = |change: Change| count_changes(change, seq![current], seq![original]) == 1;
            &&& one(Change::Recovered) <==> found(current) && !found(original)
            &&& one(Change::Regressed) <==> !found(current) && found(original)
            &&& one(Change::Top1Improved) <==> current.top1_correct && !original.top1_correct
            &&& one(Change::Top1Regressed) <==> !current.top1_correct && original.top1_correct
            &&& one(Change::Top1Changed) <==> current.top1_surface != original.top1_surface
        }),
{
    let (left, right) = (seq![current], seq![original]);
    assert(left.drop_last() =~= Seq::<ResultView>::empty());
    assert(left.last() == current && right.last() == original);
    assert forall|change: Change| #[trigger] count_changes(change, left, right) == (if has_changed(
        change,
        current,
        original,
    ) {
        1nat
    } else {
        0
    }) by {
        assert(count_changes(change, left.drop_last(), right.drop_last()) == 0);
    }
}

/// The results that are shown are the first ones that were not found among the first candidates.
pub proof fn the_first_late_results_are_shown(results: Seq<ResultView>, limit: int, count: int)
    requires
        0 <= count <= results.len(),
        limit >= 0,
    ensures
        ({
            let shown = detailed_before(results, limit, count);
            &&& shown.len() <= limit
            &&& forall|i: int|
                0 <= i < shown.len() ==> 0 <= #[trigger] shown[i] < count && results[shown[i]].stage
                    != RecallStage::Initial
            &&& forall|i: int, j: int|
                0 <= i < j < shown.len() ==> (#[trigger] shown[i]) < #[trigger] shown[j]
            &&& forall|k: int|
                0 <= k < count && (#[trigger] results[k]).stage != RecallStage::Initial
                    ==> shown.contains(k) || detailed_before(results, limit, k).len() == limit
        }),
    decreases count,
{
    if count > 0 {
        the_first_late_results_are_shown(results, limit, count - 1);
        let before = detailed_before(results, limit, count - 1);
        let shown = detailed_before(results, limit, count);
        assert forall|i: int, j: int| 0 <= i < j < shown.len() implies (#[trigger] shown[i])
            < #[trigger] shown[j] by {
            if j < before.len() {
                assert(before[i] < before[j]);
            } else {
                assert(before[i] < count - 1);
            }
        }
        assert forall|k: int| 0 <= k < count && (#[trigger] results[k]).stage
            != RecallStage::Initial implies shown.contains(k) || detailed_before(
            results,
            limit,
            k,
        ).len() == limit by {
            if k < count - 1 {
                if before.contains(k) {
                    let i = choose|i: int| 0 <= i < before.len() && before[i] == k;
                    assert(shown[i] == k);
                }
            } else if before.len() < limit {
                assert(shown[before.len() as int] == k);
            }
        }
    }
}

/// A report breaks a limit exactly if one that was given is exceeded, or fallen short of.
pub proof fn a_report_breaks_only_given_limits(
    options: RecallOptions,
    report: RecallReport,
    latency: Option<Seq<char>>,
)
    ensures
        broken_limit(options, report, latency) is None <==> {
            &&& options.max_missing matches Some(most) ==> report.missing <= most
            &&& options.min_recovered matches Some(least) ==> report.dictionary_recovered >= least
            &&& options.max_regressed matches Some(most) ==> report.dictionary_regressed <= most
            &&& options.max_top1_regressed matches Some(most) ==> report.dictionary_top1_regressed
                <= most
            &&& options.max_top1_changed matches Some(most) ==> report.dictionary_top1_changed <= most
            &&& latency is None
            &&& options.max_dictionary_bytes matches Some(most) ==> report.dictionary_bytes <= most
        },
{
}

} // verus!
