//! What an evaluation of dictionary packs counts, and when it fails.

use crate::context_pack_options::ContextPackOptions;
use crate::context_rules::more;
use crate::evaluation_options::optional_text;
use crate::order::{is_ranked, sorted};
use crate::text::{count_text, decimal, decimal_text, joined, same_text, texts};
use vstd::prelude::*;
use vstd::string::*;

verus! {

// ---------------------------------------------------------------------------
// Ranks
// ---------------------------------------------------------------------------

/// Where the expected surface stands at or behind `index` among the first `limit` candidates.
pub open spec fn rank_from(
    candidates: Seq<Seq<char>>,
    expected: Seq<char>,
    limit: int,
    index: int,
) -> Option<int>
    decreases candidates.len() - index,
{
    if index >= candidates.len() || index >= limit {
        None
    } else if candidates[index] == expected {
        Some(index)
    } else {
        rank_from(candidates, expected, limit, index + 1)
    }
}

/// The rank of the expected surface among the first `top_k` candidates.
pub fn rank(candidates: &[String], expected: &str, top_k: usize) -> (result: Option<usize>)
    ensures
        result is Some <==> rank_from(texts(candidates@), expected@, top_k as int, 0) is Some,
        result matches Some(place) ==> rank_from(texts(candidates@), expected@, top_k as int, 0)
            == Some(place as int),
{
    let ghost all = texts(candidates@);
    let count: usize = if candidates.len() <= top_k {
        candidates.len()
    } else {
        top_k
    };
    for index in 0..count
        invariant
            all == texts(candidates@),
            count <= candidates@.len(),
            count <= top_k,
            rank_from(all, expected@, top_k as int, 0) == rank_from(
                all,
                expected@,
                top_k as int,
                index as int,
            ),
    {
        if same_text(candidates[index].as_str(), expected) {
            return Some(index);
        }
    }
    None
}

/// How an evaluation compares a pack with its baseline. No count goes beyond the greatest number.
#[derive(Clone, Copy, Debug, PartialEq, Eq, Structural)]
pub struct ScoreCounts {
    pub baseline_top1: usize,
    pub pack_top1: usize,
    pub baseline_topk: usize,
    pub pack_topk: usize,
    pub top1_improved: usize,
    pub top1_regressed: usize,
    pub top1_changed: usize,
    pub topk_recovered: usize,
    pub topk_regressed: usize,
}

/// One more if something holds.
pub open spec fn more_if(value: usize, holds: bool) -> usize {
    if holds {
        more(value, 1)
    } else {
        value
    }
}

fn one_more_if(value: usize, holds: bool) -> (result: usize)
    ensures
        result == more_if(value, holds),
{
    if holds {
        value.saturating_add(1)
    } else {
        value
    }
}

/// The first of some surfaces.
pub open spec fn first_of(surfaces: Seq<Seq<char>>) -> Option<Seq<char>> {
    if surfaces.len() == 0 {
        None
    } else {
        Some(surfaces[0])
    }
}

/// The counts after one more case, with the surfaces of both sides.
pub open spec fn counts_with(
    counts: ScoreCounts,
    baseline: Seq<Seq<char>>,
    pack: Seq<Seq<char>>,
    expected: Seq<char>,
    top_k: int,
) -> ScoreCounts {
    let before = rank_from(baseline, expected, top_k, 0);
    let after = rank_from(pack, expected, top_k, 0);
    ScoreCounts {
        baseline_top1: more_if(counts.baseline_top1, before == Some(0int)),
        pack_top1: more_if(counts.pack_top1, after == Some(0int)),
        baseline_topk: more_if(counts.baseline_topk, before is Some),
        pack_topk: more_if(counts.pack_topk, after is Some),
        top1_improved: more_if(
            counts.top1_improved,
            before != Some(0int) && after == Some(0int),
        ),
        top1_regressed: more_if(
            counts.top1_regressed,
            before == Some(0int) && after != Some(0int),
        ),
        top1_changed: more_if(counts.top1_changed, first_of(baseline) != first_of(pack)),
        topk_recovered: more_if(counts.topk_recovered, before is None && after is Some),
        topk_regressed: more_if(counts.topk_regressed, before is Some && after is None),
    }
}

fn starts_differ(left: &[String], right: &[String]) -> (result: bool)
    ensures
        result == (first_of(texts(left@)) != first_of(texts(right@))),
{
    if left.len() == 0 || right.len() == 0 {
        return left.len() != right.len();
    }
    !same_text(left[0].as_str(), right[0].as_str())
}

impl ScoreCounts {
    pub fn new() -> (result: Self)
        ensures
            result == no_counts(),
    {
        ScoreCounts {
            baseline_top1: 0,
            pack_top1: 0,
            baseline_topk: 0,
            pack_topk: 0,
            top1_improved: 0,
            top1_regressed: 0,
            top1_changed: 0,
            topk_recovered: 0,
            topk_regressed: 0,
        }
    }

    /// Counts a case, and gives the ranks of the expected surface on both sides.
    pub fn record(
        &mut self,
        baseline: &[String],
        pack: &[String],
        expected: &str,
        top_k: usize,
    ) -> (result: (Option<usize>, Option<usize>))
        ensures
            *final(self) == counts_with(
                *old(self),
                texts(baseline@),
                texts(pack@),
                expected@,
                top_k as int,
            ),
            result.0 is Some <==> rank_from(texts(baseline@), expected@, top_k as int, 0) is Some,
            result.0 matches Some(place) ==> rank_from(
                texts(baseline@),
                expected@,
                top_k as int,
                0,
            ) == Some(place as int),
            result.1 is Some <==> rank_from(texts(pack@), expected@, top_k as int, 0) is Some,
            result.1 matches Some(place) ==> rank_from(texts(pack@), expected@, top_k as int, 0)
                == Some(place as int),
    {
        let before: Option<usize> = rank(baseline, expected, top_k);
        let after: Option<usize> = rank(pack, expected, top_k);
        let was_first: bool = before == Some(0usize);
        let is_first: bool = after == Some(0usize);
        self.baseline_top1 = one_more_if(self.baseline_top1, was_first);
        self.pack_top1 = one_more_if(self.pack_top1, is_first);
        self.baseline_topk = one_more_if(self.baseline_topk, before.is_some());
        self.pack_topk = one_more_if(self.pack_topk, after.is_some());
        self.top1_improved = one_more_if(self.top1_improved, !was_first && is_first);
        self.top1_regressed = one_more_if(self.top1_regressed, was_first && !is_first);
        self.top1_changed = one_more_if(self.top1_changed, starts_differ(baseline, pack));
        self.topk_recovered = one_more_if(
            self.topk_recovered,
            before.is_none() && after.is_some(),
        );
        self.topk_regressed = one_more_if(
            self.topk_regressed,
            before.is_some() && after.is_none(),
        );
        (before, after)
    }
}

/// A case with the surfaces that both sides give for it.
pub ghost struct ComparedCase {
    pub baseline: Seq<Seq<char>>,
    pub pack: Seq<Seq<char>>,
    pub expected: Seq<char>,
}

/// The counts before any case.
pub open spec fn no_counts() -> ScoreCounts {
    ScoreCounts {
        baseline_top1: 0,
        pack_top1: 0,
        baseline_topk: 0,
        pack_topk: 0,
        top1_improved: 0,
        top1_regressed: 0,
        top1_changed: 0,
        topk_recovered: 0,
        topk_regressed: 0,
    }
}

/// The counts after all cases.
pub open spec fn counts_after(cases: Seq<ComparedCase>, top_k: int) -> ScoreCounts
    decreases cases.len(),
{
    if cases.len() == 0 {
        no_counts()
    } else {
        let last = cases.last();
        counts_with(
            counts_after(cases.drop_last(), top_k),
            last.baseline,
            last.pack,
            last.expected,
            top_k,
        )
    }
}

/// Whether the counts explain each other: what the pack has over its baseline is what improved
/// without what regressed; what stands first is also among the first, and a first candidate that
/// improved or regressed also changed.
pub open spec fn explains(counts: ScoreCounts) -> bool {
    &&& counts.pack_top1 + counts.top1_regressed == counts.baseline_top1 + counts.top1_improved
    &&& counts.pack_topk + counts.topk_regressed == counts.baseline_topk + counts.topk_recovered
    &&& counts.baseline_top1 <= counts.baseline_topk
    &&& counts.pack_top1 <= counts.pack_topk
    &&& counts.top1_improved + counts.top1_regressed <= counts.top1_changed
}

proof fn a_rank_is_a_place(
    candidates: Seq<Seq<char>>,
    expected: Seq<char>,
    limit: int,
    index: int,
)
    requires
        0 <= index,
    ensures
        rank_from(candidates, expected, limit, index) matches Some(place) ==> index <= place
            < candidates.len() && place < limit && candidates[place] == expected,
    decreases candidates.len() - index,
{
    if index < candidates.len() && index < limit && candidates[index] != expected {
        a_rank_is_a_place(candidates, expected, limit, index + 1);
    }
}

/// After any cases the counts explain each other: improvements and regressions make up the
/// difference between a pack and its baseline, first places are no more than places among the
/// first, and no first candidate improved or regressed without a change. No count is greater
/// than the number of cases.
pub proof fn improvements_and_regressions_explain_the_difference(
    cases: Seq<ComparedCase>,
    top_k: int,
)
    requires
        cases.len() <= usize::MAX,
    ensures
        explains(counts_after(cases, top_k)),
        counts_after(cases, top_k).baseline_topk <= cases.len(),
        counts_after(cases, top_k).pack_topk <= cases.len(),
        counts_after(cases, top_k).top1_changed <= cases.len(),
        counts_after(cases, top_k).topk_recovered <= cases.len(),
        counts_after(cases, top_k).topk_regressed <= cases.len(),
    decreases cases.len(),
{
    if cases.len() > 0 {
        improvements_and_regressions_explain_the_difference(cases.drop_last(), top_k);
        let last = cases.last();
        a_rank_is_a_place(last.baseline, last.expected, top_k, 0);
        a_rank_is_a_place(last.pack, last.expected, top_k, 0);
        let before = rank_from(last.baseline, last.expected, top_k, 0);
        let after = rank_from(last.pack, last.expected, top_k, 0);
        if (before == Some(0int)) != (after == Some(0int)) {
            assert(first_of(last.baseline) != first_of(last.pack));
        }
    }
}

// ---------------------------------------------------------------------------
// Loaded packs
// ---------------------------------------------------------------------------

/// What is known of an accepted pack.
#[derive(Debug, PartialEq, Eq)]
pub struct AcceptedPack {
    pub entry_count: usize,
    pub context_rule_count: usize,
    pub pack_sha256: String,
}

/// How many packs, entries and context rules were loaded.
#[derive(Clone, Copy, Debug, PartialEq, Eq, Structural)]
pub struct PackTotals {
    pub pack_count: usize,
    pub entry_count: usize,
    pub context_rule_count: usize,
}

/// The sum of the first `count` numbers.
pub open spec fn sum_before(values: Seq<usize>, count: int) -> int
    decreases count,
{
    if count <= 0 {
        0
    } else {
        sum_before(values, count - 1) + values[count - 1]
    }
}

proof fn sums_grow(values: Seq<usize>, low: int, high: int)
    requires
        0 <= low <= high <= values.len(),
    ensures
        sum_before(values, low) <= sum_before(values, high),
    decreases high,
{
    if low < high {
        sums_grow(values, low, high - 1);
    }
}

fn total_of(values: &Vec<usize>) -> (result: Option<usize>)
    ensures
        result is Some <==> sum_before(values@, values@.len() as int) <= usize::MAX,
        result matches Some(total) ==> total == sum_before(values@, values@.len() as int),
{
    let mut total: usize = 0;
    for index in 0..values.len()
        invariant
            total == sum_before(values@, index as int),
    {
        proof {
            sums_grow(values@, index + 1, values@.len() as int);
        }
        match total.checked_add(values[index]) {
            Some(sum) => {
                total = sum;
            },
            None => {
                return None;
            },
        }
    }
    Some(total)
}

/// The numbers of entries of some packs.
pub open spec fn entry_counts(packs: Seq<AcceptedPack>) -> Seq<usize> {
    Seq::new(packs.len(), |i: int| packs[i].entry_count)
}

/// The numbers of context rules of some packs.
pub open spec fn rule_counts(packs: Seq<AcceptedPack>) -> Seq<usize> {
    Seq::new(packs.len(), |i: int| packs[i].context_rule_count)
}

fn total_entries(packs: &[AcceptedPack]) -> (result: Option<usize>)
    ensures
        result is Some <==> sum_before(entry_counts(packs@), packs@.len() as int) <= usize::MAX,
        result matches Some(total) ==> total == sum_before(
            entry_counts(packs@),
            packs@.len() as int,
        ),
{
    let mut counts: Vec<usize> = Vec::new();
    for index in 0..packs.len()
        invariant
            counts@.len() == index,
            forall|i: int| 0 <= i < index ==> #[trigger] counts@[i] == packs@[i].entry_count,
    {
        counts.push(packs[index].entry_count);
    }
    assert(counts@ =~= entry_counts(packs@));
    total_of(&counts)
}

fn total_rules(packs: &[AcceptedPack]) -> (result: Option<usize>)
    ensures
        result is Some <==> sum_before(rule_counts(packs@), packs@.len() as int) <= usize::MAX,
        result matches Some(total) ==> total == sum_before(rule_counts(packs@), packs@.len() as int),
{
    let mut counts: Vec<usize> = Vec::new();
    for index in 0..packs.len()
        invariant
            counts@.len() == index,
            forall|i: int| 0 <= i < index ==> #[trigger] counts@[i] == packs@[i].context_rule_count,
    {
        counts.push(packs[index].context_rule_count);
    }
    assert(counts@ =~= rule_counts(packs@));
    total_of(&counts)
}

/// Whether the totals of some packs can be told.
pub open spec fn totals_fit(packs: Seq<AcceptedPack>) -> bool {
    &&& sum_before(entry_counts(packs), packs.len() as int) <= usize::MAX
    &&& sum_before(rule_counts(packs), packs.len() as int) <= usize::MAX
}

/// Whether `totals` are those of some packs.
pub open spec fn are_totals(totals: PackTotals, packs: Seq<AcceptedPack>) -> bool {
    &&& totals.pack_count == packs.len()
    &&& totals.entry_count == sum_before(entry_counts(packs), packs.len() as int)
    &&& totals.context_rule_count == sum_before(rule_counts(packs), packs.len() as int)
}

/// The totals of some packs, if they can be told.
pub fn pack_totals(packs: &[AcceptedPack]) -> (result: Option<PackTotals>)
    ensures
        result is Some <==> totals_fit(packs@),
        result matches Some(totals) ==> are_totals(totals, packs@),
{
    let entry_count: usize = match total_entries(packs) {
        Some(total) => total,
        None => {
            return None;
        },
    };
    let context_rule_count: usize = match total_rules(packs) {
        Some(total) => total,
        None => {
            return None;
        },
    };
    Some(PackTotals { pack_count: packs.len(), entry_count, context_rule_count })
}

/// Why the packs of a data directory cannot be evaluated; `None` if they can.
pub open spec fn loading_problem(label: Seq<char>, errors: nat, packs: nat) -> Option<Seq<char>> {
    if errors > 0 {
        Some(
            label + " dictionary pack loading failed for "@ + decimal(errors) + " file(s)"@,
        )
    } else if packs == 0 {
        Some(label + " data directory contains no valid dictionary packs"@)
    } else {
        None
    }
}

/// Whether the packs of a data directory can be evaluated.
pub fn check_loaded(label: &str, errors: usize, packs: usize) -> (result: Result<(), String>)
    ensures
        result is Ok <==> loading_problem(label@, errors as nat, packs as nat) is None,
        result matches Err(problem) ==> loading_problem(label@, errors as nat, packs as nat)
            == Some(problem@),
{
    if errors > 0 {
        let start: String = joined(label, " dictionary pack loading failed for ");
        let number: String = count_text(errors);
        let middle: String = joined(start.as_str(), number.as_str());
        return Err(joined(middle.as_str(), " file(s)"));
    }
    if packs == 0 {
        return Err(joined(label, " data directory contains no valid dictionary packs"));
    }
    Ok(())
}

/// The bytes of the packs after one more; too many are refused with the message.
pub fn add_pack_bytes(total: u64, added: u64, message: &str) -> (result: Result<u64, String>)
    ensures
        result is Ok <==> total + added <= u64::MAX,
        result matches Ok(sum) ==> sum == total + added,
        result matches Err(problem) ==> problem@ == message@,
{
    match total.checked_add(added) {
        Some(sum) => Ok(sum),
        None => Err(message.to_owned()),
    }
}

// ---------------------------------------------------------------------------
// Signed packs
// ---------------------------------------------------------------------------

/// What a verification of signed packs found.
#[derive(Debug, PartialEq, Eq)]
pub struct VerifySignedReport {
    pub pack_count: usize,
    pub entry_count: usize,
    pub context_rule_count: usize,
    pub pack_sha256: Vec<String>,
}

/// Why signed packs are not accepted; `None` if they are.
pub open spec fn signed_problem(
    rejected: nat,
    packs: Seq<AcceptedPack>,
    expected: nat,
) -> Option<Seq<char>> {
    if rejected != 0 {
        Some(
            "signed dictionary pack verification rejected "@ + decimal(rejected) + " file(s)"@,
        )
    } else if packs.len() != expected {
        Some(
            "expected "@ + decimal(expected) + " signed dictionary pack(s), accepted "@ + decimal(
                packs.len(),
            ),
        )
    } else if sum_before(entry_counts(packs), packs.len() as int) > usize::MAX {
        Some("dictionary pack entry total overflowed"@)
    } else if sum_before(rule_counts(packs), packs.len() as int) > usize::MAX {
        Some("dictionary pack context rule total overflowed"@)
    } else {
        None
    }
}

/// The digests of some packs.
pub open spec fn digests_of(packs: Seq<AcceptedPack>) -> Seq<String> {
    Seq::new(packs.len(), |i: int| packs[i].pack_sha256)
}

fn sorted_digests(packs: &[AcceptedPack]) -> (result: Vec<String>)
    ensures
        is_ranked(result@),
        result@.to_multiset() == digests_of(packs@).to_multiset(),
{
    let mut digests: Vec<String> = Vec::new();
    for index in 0..packs.len()
        invariant
            digests@.len() == index,
            forall|i: int| 0 <= i < index ==> #[trigger] digests@[i] == packs@[i].pack_sha256,
    {
        digests.push(packs[index].pack_sha256.clone());
    }
    assert(digests@ =~= digests_of(packs@));
    sorted(digests)
}

/// The report on signed packs: none may be rejected, and as many as expected accepted.
pub fn verify_signed_report(rejected: usize, packs: &[AcceptedPack], expected: usize) -> (result:
    Result<VerifySignedReport, String>)
    ensures
        result is Ok <==> signed_problem(rejected as nat, packs@, expected as nat) is None,
        result matches Ok(report) ==> {
            &&& report.pack_count == packs@.len()
            &&& report.entry_count == sum_before(entry_counts(packs@), packs@.len() as int)
            &&& report.context_rule_count == sum_before(rule_counts(packs@), packs@.len() as int)
            &&& is_ranked(report.pack_sha256@)
            &&& report.pack_sha256@.to_multiset() == digests_of(packs@).to_multiset()
        },
        result matches Err(problem) ==> signed_problem(rejected as nat, packs@, expected as nat)
            == Some(problem@),
{
    if rejected != 0 {
        let number: String = count_text(rejected);
        let start: String = joined(
            "signed dictionary pack verification rejected ",
            number.as_str(),
        );
        return Err(joined(start.as_str(), " file(s)"));
    }
    if packs.len() != expected {
        let wanted: String = count_text(expected);
        let found: String = count_text(packs.len());
        let start: String = joined("expected ", wanted.as_str());
        let middle: String = joined(start.as_str(), " signed dictionary pack(s), accepted ");
        return Err(joined(middle.as_str(), found.as_str()));
    }
    let entry_count: usize = match total_entries(packs) {
        Some(total) => total,
        None => {
            return Err("dictionary pack entry total overflowed".to_owned());
        },
    };
    let context_rule_count: usize = match total_rules(packs) {
        Some(total) => total,
        None => {
            return Err("dictionary pack context rule total overflowed".to_owned());
        },
    };
    Ok(
        VerifySignedReport {
            pack_count: packs.len(),
            entry_count,
            context_rule_count,
            pack_sha256: sorted_digests(packs),
        },
    )
}

// ---------------------------------------------------------------------------
// Thresholds
// ---------------------------------------------------------------------------

/// The message about a number below its minimum; `None` if it is not.
pub open spec fn below(label: Seq<char>, actual: nat, minimum: Option<usize>) -> Option<Seq<char>> {
    match minimum {
        Some(limit) => if actual < limit {
            Some(label + " "@ + decimal(actual) + " is below the required minimum"@)
        } else {
            None
        },
        None => None,
    }
}

/// The message about a number above its maximum; `None` if it is not.
pub open spec fn above(label: Seq<char>, actual: nat, maximum: Option<u64>) -> Option<Seq<char>> {
    match maximum {
        Some(limit) => if actual > limit {
            Some(label + " "@ + decimal(actual) + " exceeds the allowed maximum"@)
        } else {
            None
        },
        None => None,
    }
}

/// A limit as a wider number.
pub open spec fn widened(limit: Option<usize>) -> Option<u64> {
    match limit {
        Some(limit) => Some(limit as u64),
        None => None,
    }
}

pub fn minimum(label: &str, actual: usize, expected: Option<usize>) -> (result: Result<(), String>)
    ensures
        result is Ok <==> below(label@, actual as nat, expected) is None,
        result matches Err(problem) ==> below(label@, actual as nat, expected) == Some(problem@),
{
    if let Some(limit) = expected {
        if actual < limit {
            let start: String = joined(label, " ");
            let number: String = count_text(actual);
            let middle: String = joined(start.as_str(), number.as_str());
            return Err(joined(middle.as_str(), " is below the required minimum"));
        }
    }
    Ok(())
}

pub fn maximum_u64(label: &str, actual: u64, expected: Option<u64>) -> (result: Result<(), String>)
    ensures
        result is Ok <==> above(label@, actual as nat, expected) is None,
        result matches Err(problem) ==> above(label@, actual as nat, expected) == Some(problem@),
{
    if let Some(limit) = expected {
        if actual > limit {
            let start: String = joined(label, " ");
            let number: String = decimal_text(actual);
            let middle: String = joined(start.as_str(), number.as_str());
            return Err(joined(middle.as_str(), " exceeds the allowed maximum"));
        }
    }
    Ok(())
}

pub fn maximum(label: &str, actual: usize, expected: Option<usize>) -> (result: Result<(), String>)
    ensures
        result is Ok <==> above(label@, actual as nat, widened(expected)) is None,
        result matches Err(problem) ==> above(label@, actual as nat, widened(expected)) == Some(
            problem@,
        ),
{
    let limit: Option<u64> = match expected {
        Some(limit) => Some(limit as u64),
        None => None,
    };
    maximum_u64(label, actual as u64, limit)
}

/// How many context rules a pack adds to its baseline.
pub fn added_context_rules(pack: usize, baseline: usize) -> (result: usize)
    ensures
        result == (if pack >= baseline {
            pack - baseline
        } else {
            0
        }),
{
    pack.saturating_sub(baseline)
}

/// What the limits of an evaluation speak of, apart from measures that are no whole numbers.
#[derive(Clone, Copy, Debug, PartialEq, Eq, Structural)]
pub struct MeasuredPack {
    pub context_rule_count: usize,
    pub added_context_rule_count: usize,
    pub pack_bytes: u64,
    pub counts: ScoreCounts,
}

/// The first of two problems.
pub open spec fn or_else(first: Option<Seq<char>>, second: Option<Seq<char>>) -> Option<Seq<char>> {
    if first is Some {
        first
    } else {
        second
    }
}

/// The limit that an evaluation breaks first, `measures` being the problem with the accuracy, the
/// mean reciprocal rank or a duration.
pub open spec fn broken_threshold(
    options: ContextPackOptions,
    pack: MeasuredPack,
    measures: Option<Seq<char>>,
) -> Option<Seq<char>> {
    let counts = pack.counts;
    or_else(
        below("context rules"@, pack.context_rule_count as nat, options.min_context_rules),
        or_else(
            below(
                "added context rules"@,
                pack.added_context_rule_count as nat,
                options.min_added_context_rules,
            ),
            or_else(
                below(
                    "top-1 improvements"@,
                    counts.top1_improved as nat,
                    options.min_top1_improved,
                ),
                or_else(
                    above(
                        "top-1 regressions"@,
                        counts.top1_regressed as nat,
                        widened(options.max_top1_regressed),
                    ),
                    or_else(
                        above(
                            "top-k regressions"@,
                            counts.topk_regressed as nat,
                            widened(options.max_topk_regressed),
                        ),
                        or_else(
                            above(
                                "top-1 changes"@,
                                counts.top1_changed as nat,
                                widened(options.max_top1_changed),
                            ),
                            or_else(
                                measures,
                                above(
                                    "pack bytes"@,
                                    pack.pack_bytes as nat,
                                    options.max_pack_bytes,
                                ),
                            ),
                        ),
                    ),
                ),
            ),
        ),
    )
}

/// Whether an evaluation keeps its limits. `measures` is the problem with the accuracy, the mean
/// reciprocal rank or a duration, if there is one.
pub fn enforce_thresholds(
    options: &ContextPackOptions,
    pack: &MeasuredPack,
    measures: Option<String>,
) -> (result: Result<(), String>)
    ensures
        result is Ok <==> broken_threshold(*options, *pack, optional_text(measures)) is None,
        result matches Err(problem) ==> broken_threshold(
            *options,
            *pack,
            optional_text(measures),
        ) == Some(problem@),
{
    match minimum("context rules", pack.context_rule_count, options.min_context_rules) {
        Ok(_) => {},
        Err(problem) => {
            return Err(problem);
        },
    }
    match minimum(
        "added context rules",
        pack.added_context_rule_count,
        options.min_added_context_rules,
    ) {
        Ok(_) => {},
        Err(problem) => {
            return Err(problem);
        },
    }
    match minimum("top-1 improvements", pack.counts.top1_improved, options.min_top1_improved) {
        Ok(_) => {},
        Err(problem) => {
            return Err(problem);
        },
    }
    match maximum("top-1 regressions", pack.counts.top1_regressed, options.max_top1_regressed) {
        Ok(_) => {},
        Err(problem) => {
            return Err(problem);
        },
    }
    match maximum("top-k regressions", pack.counts.topk_regressed, options.max_topk_regressed) {
        Ok(_) => {},
        Err(problem) => {
            return Err(problem);
        },
    }
    match maximum("top-1 changes", pack.counts.top1_changed, options.max_top1_changed) {
        Ok(_) => {},
        Err(problem) => {
            return Err(problem);
        },
    }
    match measures {
        Some(problem) => {
            return Err(problem);
        },
        None => {},
    }
    maximum_u64("pack bytes", pack.pack_bytes, options.max_pack_bytes)
}

/// The rank is that of the first candidate that is the expected one, among the first `limit`.
pub proof fn the_rank_is_the_first_place(
    candidates: Seq<Seq<char>>,
    expected: Seq<char>,
    limit: int,
    index: int,
)
    requires
        0 <= index <= candidates.len(),
    ensures
        match rank_from(candidates, expected, limit, index) {
            Some(rank) => {
                &&& index <= rank < candidates.len() && rank < limit
                &&& candidates[rank] == expected
                &&& forall|i: int| index <= i < rank ==> (#[trigger] candidates[i]) != expected
            },
            None => forall|i: int|
                index <= i < candidates.len() && i < limit ==> (#[trigger] candidates[i])
                    != expected,
        },
    decreases candidates.len() - index,
{
    if index < candidates.len() && index < limit && candidates[index] != expected {
        the_rank_is_the_first_place(candidates, expected, limit, index + 1);
    }
}

/// How one more case changes the counts: what stands first, what stands among the first, what changed
/// and in which direction, for both sides.
pub proof fn one_case_changes_in_these_ways(
    cases: Seq<ComparedCase>,
    case: ComparedCase,
    top_k: int,
)
    requires
        cases.len() < usize::MAX,
        top_k >= 1,
    ensures
        ({
            let before = counts_after(cases, top_k);
            let after = counts_after(cases.push(case), top_k);
            let first = case.baseline.len() > 0 && case.baseline[0] == case.expected;
            let now = case.pack.len() > 0 && case.pack[0] == case.expected;
            let known = exists|i: int|
                0 <= i < case.baseline.len() && i < top_k && (#[trigger] case.baseline[i])
                    == case.expected;
            let found = exists|i: int|
                0 <= i < case.pack.len() && i < top_k && (#[trigger] case.pack[i])
                    == case.expected;
            &&& after.baseline_top1 - before.baseline_top1 == (if first { 1int } else { 0 })
            &&& after.pack_top1 - before.pack_top1 == (if now { 1int } else { 0 })
            &&& after.baseline_topk - before.baseline_topk == (if known { 1int } else { 0 })
            &&& after.pack_topk - before.pack_topk == (if found { 1int } else { 0 })
            &&& after.top1_improved - before.top1_improved == (if !first && now {
                1int
            } else {
                0
            })
            &&& after.top1_regressed - before.top1_regressed == (if first && !now {
                1int
            } else {
                0
            })
            &&& after.topk_recovered - before.topk_recovered == (if !known && found {
                1int
            } else {
                0
            })
            &&& after.topk_regressed - before.topk_regressed == (if known && !found {
                1int
            } else {
                0
            })
        }),
{
    assert(cases.push(case).drop_last() =~= cases);
    improvements_and_regressions_explain_the_difference(cases, top_k);
    the_rank_is_the_first_place(case.baseline, case.expected, top_k, 0);
    the_rank_is_the_first_place(case.pack, case.expected, top_k, 0);
    let rank = rank_from(case.baseline, case.expected, top_k, 0);
    let place = rank_from(case.pack, case.expected, top_k, 0);
    if rank is Some {
        assert(case.baseline[rank->0] == case.expected);
    }
    if place is Some {
        assert(case.pack[place->0] == case.expected);
    }
    if case.baseline.len() > 0 && case.baseline[0] == case.expected {
        assert(rank == Some(0int));
    }
    if case.pack.len() > 0 && case.pack[0] == case.expected {
        assert(place == Some(0int));
    }
}

/// A first candidate changed if the two sides begin with different candidates, or only one has any.
pub proof fn another_first_candidate_is_a_change(
    cases: Seq<ComparedCase>,
    case: ComparedCase,
    top_k: int,
)
    requires
        cases.len() < usize::MAX,
    ensures
        ({
            let before = counts_after(cases, top_k);
            let after = counts_after(cases.push(case), top_k);
            let same = if case.baseline.len() == 0 || case.pack.len() == 0 {
                case.baseline.len() == case.pack.len()
            } else {
                case.baseline[0] == case.pack[0]
            };
            after.top1_changed - before.top1_changed == (if same { 0int } else { 1 })
        }),
{
    assert(cases.push(case).drop_last() =~= cases);
    improvements_and_regressions_explain_the_difference(cases, top_k);
}

/// An evaluation passes exactly if no limit that was given is broken.
pub proof fn a_pack_passes_within_its_limits(
    options: ContextPackOptions,
    pack: MeasuredPack,
    measures: Option<Seq<char>>,
)
    ensures
        broken_threshold(options, pack, measures) is None <==> {
            let counts = pack.counts;
            &&& options.min_context_rules matches Some(limit) ==> pack.context_rule_count >= limit
            &&& options.min_added_context_rules matches Some(limit)
                ==> pack.added_context_rule_count >= limit
            &&& options.min_top1_improved matches Some(limit) ==> counts.top1_improved >= limit
            &&& options.max_top1_regressed matches Some(limit) ==> counts.top1_regressed <= limit
            &&& options.max_topk_regressed matches Some(limit) ==> counts.topk_regressed <= limit
            &&& options.max_top1_changed matches Some(limit) ==> counts.top1_changed <= limit
            &&& measures is None
            &&& options.max_pack_bytes matches Some(limit) ==> pack.pack_bytes <= limit
        },
{
}

/// The totals of some packs are the sums over them.
pub proof fn totals_are_sums_over_the_packs(packs: Seq<AcceptedPack>, pack: AcceptedPack)
    ensures
        sum_before(entry_counts(packs.push(pack)), packs.len() as int + 1) == sum_before(
            entry_counts(packs),
            packs.len() as int,
        ) + pack.entry_count,
        sum_before(rule_counts(packs.push(pack)), packs.len() as int + 1) == sum_before(
            rule_counts(packs),
            packs.len() as int,
        ) + pack.context_rule_count,
        sum_before(entry_counts(packs), 0) == 0,
        sum_before(rule_counts(packs), 0) == 0,
{
    sums_look_at_the_first_values(
        entry_counts(packs),
        entry_counts(packs.push(pack)),
        packs.len() as int,
    );
    sums_look_at_the_first_values(
        rule_counts(packs),
        rule_counts(packs.push(pack)),
        packs.len() as int,
    );
}

proof fn sums_look_at_the_first_values(left: Seq<usize>, right: Seq<usize>, count: int)
    requires
        0 <= count <= left.len(),
        count <= right.len(),
        forall|i: int| 0 <= i < count ==> #[trigger] left[i] == right[i],
    ensures
        sum_before(left, count) == sum_before(right, count),
    decreases count,
{
    if count > 0 {
        sums_look_at_the_first_values(left, right, count - 1);
        assert(left[count - 1] == right[count - 1]);
    }
}

/// Packs can be evaluated if none failed to load and there is one; signed ones if none was rejected and
/// there are as many as expected.
pub proof fn packs_are_accepted_without_errors(
    label: Seq<char>,
    errors: nat,
    count: nat,
    packs: Seq<AcceptedPack>,
    expected: nat,
)
    ensures
        loading_problem(label, errors, count) is None <==> errors == 0 && count > 0,
        signed_problem(errors, packs, expected) is None <==> errors == 0 && packs.len() == expected
            && totals_fit(packs),
{
}

} // verus!
