//! What the smaller probes find for an item: corrections of a prefix, and variants on fixed
//! boundaries.

use crate::correction::{bounded_local_substitution, is_local_substitution, matches_expected};
use crate::generation::{
    constrains, constrains_conversion, PrefixDiagnostic, MAX_CHANGED_CHARACTERS,
};
use crate::tally::{contains_expected, push_all_unique, shares_a_text, with_all_unique, Comparison};
use crate::text::{copied_texts, texts};
use vstd::prelude::*;
use vstd::string::*;

verus! {

/// How many candidates a search starts with.
pub const INITIAL_CANDIDATES: usize = 10;

/// How many alternatives each segment has.
pub const ALTERNATIVES_PER_SEGMENT: usize = 8;

/// The numbers of candidates that are reported on.
pub const REPORT_LIMITS: [usize; 4] = [16, 32, 64, 128];

/// What a prefix that the model prefers makes of a conversion.
#[derive(Debug, PartialEq, Eq)]
pub struct PrefixFindings {
    /// Whether the prefix constrains the conversion.
    pub eligible: bool,
    /// Whether the constrained conversion is taken.
    pub applied: bool,
    pub corrected: String,
    pub comparison: Comparison,
}

/// Whether the constrained conversion is taken: it changes the baseline locally.
pub open spec fn takes_alternative(
    diagnostic: Option<PrefixDiagnostic>,
    baseline: Seq<char>,
    alternative: Option<String>,
) -> bool {
    constrains(diagnostic) && alternative is Some && is_local_substitution(
        baseline,
        alternative->0@,
        MAX_CHANGED_CHARACTERS as nat,
    )
}

/// Corrects a conversion by the first one that starts with the model's prefix.
pub fn judge_prefix(
    baseline: &str,
    diagnostic: &Option<PrefixDiagnostic>,
    alternative: &Option<String>,
    expected: &[String],
) -> (result: PrefixFindings)
    ensures
        result.eligible == constrains(*diagnostic),
        result.applied == takes_alternative(*diagnostic, baseline@, *alternative),
        result.corrected@ == (if result.applied {
            alternative->0@
        } else {
            baseline@
        }),
        result.comparison.before == texts(expected@).contains(baseline@),
        result.comparison.after == texts(expected@).contains(result.corrected@),
{
    let eligible: bool = constrains_conversion(diagnostic);
    let before: bool = matches_expected(baseline, expected);
    if eligible {
        if let Some(found) = alternative {
            if bounded_local_substitution(baseline, found.as_str(), MAX_CHANGED_CHARACTERS) {
                let after: bool = matches_expected(found.as_str(), expected);
                return PrefixFindings {
                    eligible,
                    applied: true,
                    corrected: found.clone(),
                    comparison: Comparison { before, after },
                };
            }
        }
    }
    PrefixFindings {
        eligible,
        applied: false,
        corrected: baseline.to_owned(),
        comparison: Comparison { before, after: before },
    }
}

/// How many variants are searched for so that no more than `limit` candidates come together.
pub fn variant_limit(limit: usize, initial: usize) -> (result: usize)
    ensures
        result == (if limit >= initial {
            limit - initial
        } else {
            0
        }),
{
    limit.saturating_sub(initial)
}

/// Whether an expected surface is among the first candidates or the variants behind them.
pub fn expanded_hit(initial: &[String], variants: &[String], expected: &[String]) -> (result: bool)
    ensures
        result == shares_a_text(
            with_all_unique(texts(initial@), texts(variants@)),
            texts(expected@),
        ),
{
    let mut merged: Vec<String> = copied_texts(initial);
    push_all_unique(&mut merged, variants);
    contains_expected(merged.as_slice(), expected)
}

/// Variants never lose a hit.
pub proof fn variants_lose_no_hit(
    initial: Seq<Seq<char>>,
    variants: Seq<Seq<char>>,
    expected: Seq<Seq<char>>,
)
    requires
        shares_a_text(initial, expected),
    ensures
        shares_a_text(with_all_unique(initial, variants), expected),
{
    crate::tally::unique_values_are_kept(initial, variants);
    let place = choose|i: int| 0 <= i < initial.len() && expected.contains(#[trigger] initial[i]);
    let all = with_all_unique(initial, variants);
    assert(all.subrange(0, initial.len() as int)[place] == initial[place]);
    assert(expected.contains(all[place]));
}

} // verus!
