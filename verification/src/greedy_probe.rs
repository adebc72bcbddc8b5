//! What a probe of a generating model finds for an item: which surface each rule chooses, and
//! whether it is expected.

use crate::correction::{ascii_part, keeps_kanji, matches_expected};
use crate::generation::{Alternative, Generated};
use crate::tally::{tally_of, Comparison, Tally};
use crate::text::texts;
use crate::whole_result::{
    multi_region_consensus, preserves_conversion, whole_gates, contrast_consensus,
    ExistingGeneration, NearTies, WholeBlock, WholeGates, DELAYED_LONG_READING_MAXIMUMS,
    LONG_WHOLE_RESULT_COST_FLOORS, SUPPLEMENTAL_WHOLE_COST_GAPS, WHOLE_GENERATION_COST_GAPS,
    WHOLE_RESULT_READING_MAXIMUMS,
};
use vstd::prelude::*;
use vstd::string::*;

verus! {

/// How many margins are tried for the score of a supplement.
pub const SUPPLEMENTAL_MARGINS: usize = 5;

/// A candidate that was added because the model wrote it.
#[derive(Debug)]
pub struct Supplement {
    /// By how much its cost exceeds that of the first candidate, at least zero.
    pub gap: i32,
    /// Whether it comes out first after rescoring.
    pub selected: bool,
    /// For each margin that is tried, whether its score leads by as much.
    pub leads: Vec<bool>,
}

/// What is known of an item once its candidates were scored and its surface generated.
#[derive(Debug)]
pub struct ItemEvidence {
    pub input: String,
    pub expected: Vec<String>,
    pub generated: Generated,
    /// The first candidate of the dictionary.
    pub base: String,
    /// By how much the dictionary's conversion to the generated surface exceeds the first
    /// candidate, at least zero; `None` if the dictionary has no such conversion.
    pub backed_gap: Option<i32>,
    /// The chosen candidate, after one correction of its prefix, and after a second one.
    pub current: String,
    pub current_prefix: String,
    pub current_iterative: String,
    /// The same with the generated surface among the candidates.
    pub augmented: String,
    pub augmented_prefix: String,
    pub augmented_iterative: String,
    /// The same with scores that are contrasted to those without context.
    pub contrast_iterative: String,
    pub existing: ExistingGeneration,
    pub ties: NearTies,
    /// The candidates that support a whole result under each rule that is compared.
    pub variants: Vec<Option<Alternative>>,
    /// Whether a supporting candidate comes out first by the model alone.
    pub supported: bool,
    /// Whether the scored candidates support the generated surface for a very long reading.
    pub strict_support: bool,
    /// Whether the generated surface changes a personal name.
    pub changes_name: bool,
    /// The candidate that the model alone puts first, if it is another one.
    pub model_top: Option<Alternative>,
    /// For each margin that is tried, whether the model puts it first by as much.
    pub model_leads: Vec<bool>,
    pub supplement: Option<Supplement>,
}

/// What each rule makes of an item.
#[derive(Debug, PartialEq, Eq)]
pub struct ItemFindings {
    pub base: bool,
    pub raw: bool,
    /// The generated surface against the first candidate, if the dictionary has it.
    pub backed: Option<Comparison>,
    pub rescored: Comparison,
    pub current_prefix: bool,
    pub augmented_prefix: bool,
    pub iterative: Comparison,
    /// The generated surface against the chosen one, if it is one of the candidates.
    pub existing: Option<Comparison>,
    pub near_tie: Option<Comparison>,
    pub consensus: Comparison,
    pub contrast: Comparison,
    pub multi_region: Comparison,
    pub scored_long: Vec<Comparison>,
    pub whole: bool,
    pub block: WholeBlock,
    pub model_top: Vec<Comparison>,
    pub supplemental: Vec<Comparison>,
    pub supplemental_model: Vec<Vec<Comparison>>,
    pub delayed_long: Vec<Comparison>,
    pub whole_reading: Vec<Comparison>,
    pub long_whole: Vec<Comparison>,
    pub whole_generation: Vec<Comparison>,
    pub same_length: Vec<Comparison>,
    pub preserving: Vec<Comparison>,
}

/// The comparison of what a rule chooses with what was chosen without it: the other outcome if
/// the rule takes it, the same one otherwise.
pub open spec fn switched(before: bool, other: bool, takes: bool) -> Comparison {
    Comparison { before, after: if takes {
        other
    } else {
        before
    } }
}

fn switch(before: bool, other: bool, takes: bool) -> (result: Comparison)
    ensures
        result == switched(before, other, takes),
{
    Comparison { before, after: if takes {
        other
    } else {
        before
    } }
}

impl ItemEvidence {
    /// Whether a surface is expected.
    pub open spec fn expects(self, surface: Seq<char>) -> bool {
        texts(self.expected@).contains(surface)
    }

    /// Whether the generated surface is expected.
    pub open spec fn raw(self) -> bool {
        self.expects(self.generated.surface@)
    }

    /// The surface that the contrasted scores and the generated one agree on.
    pub open spec fn contrasted(self) -> Seq<char> {
        if self.existing.local && self.ties.contrast {
            self.generated.surface@
        } else {
            self.contrast_iterative@
        }
    }

    /// The surface after changes of several runs are considered too.
    pub open spec fn agreed(self) -> Seq<char> {
        if self.existing.multi_region && self.ties.contrast_multi_region {
            self.generated.surface@
        } else {
            self.contrasted()
        }
    }

    /// Whether the surface that the scores alone, or a near tie, choose is expected.
    pub open spec fn consents(self) -> bool {
        if self.existing.local && self.ties.model {
            self.raw()
        } else {
            self.expects(self.augmented_iterative@)
        }
    }

    /// What is known of the generated surface when it is weighed against the agreed one.
    pub open spec fn gates(self) -> WholeGates {
        WholeGates {
            reading_characters: self.input@.len() as usize,
            complete: self.generated.stopped_at_eos,
            cost_gap: self.backed_gap,
            supported: self.supported,
            keeps_names: !self.changes_name,
            keeps_ascii: ascii_part(self.agreed()) == ascii_part(self.generated.surface@),
            keeps_kanji: keeps_kanji(self.agreed(), self.generated.surface@),
            same_length: self.agreed().len() == self.generated.surface@.len(),
        }
    }

    /// The surface that is chosen in the end.
    pub open spec fn whole(self) -> Seq<char> {
        if self.gates().accepted() {
            self.generated.surface@
        } else {
            self.agreed()
        }
    }

    /// Whether an alternative may stand in for a surface.
    pub open spec fn allows(self, surface: Seq<char>, alternative: Option<Alternative>) -> bool {
        alternative is Some && ascii_part(surface) == ascii_part(alternative->0.surface@)
            && keeps_kanji(surface, alternative->0.surface@) && !alternative->0.changes_name
    }

    /// Whether an alternative that stands in for a surface where it may is expected.
    pub open spec fn expects_instead(
        self,
        surface: Seq<char>,
        alternative: Option<Alternative>,
    ) -> bool {
        if self.allows(surface, alternative) {
            self.expects(alternative->0.surface@)
        } else {
            self.expects(surface)
        }
    }

    /// Whether the supplement is taken up to a gap.
    pub open spec fn takes_supplement(self, maximum: int) -> bool {
        self.supplement is Some && self.supplement->0.selected && self.supplement->0.gap
            <= maximum
    }

    /// Whether the supplement is taken up to a gap if its score leads by a margin.
    pub open spec fn takes_leading_supplement(self, maximum: int, margin: int) -> bool {
        self.supplement is Some && self.supplement->0.gap <= maximum && 0 <= margin
            < self.supplement->0.leads@.len() && self.supplement->0.leads@[margin]
    }

    /// The surface that the contrasted scores and the generated one agree on.
    pub fn contrasted_surface(&self) -> (result: &str)
        ensures
            result@ == self.contrasted(),
    {
        contrast_consensus(
            self.existing,
            self.ties,
            self.generated.surface.as_str(),
            self.contrast_iterative.as_str(),
        )
    }

    /// The surface after changes of several runs are considered too.
    pub fn agreed_surface(&self) -> (result: &str)
        ensures
            result@ == self.agreed(),
    {
        multi_region_consensus(
            self.existing,
            self.ties,
            self.generated.surface.as_str(),
            self.contrast_iterative.as_str(),
        )
    }

    /// What is known of the generated surface when it is weighed against the agreed one.
    pub fn weighed(&self) -> (result: WholeGates)
        ensures
            result == self.gates(),
    {
        whole_gates(
            self.input.as_str(),
            self.agreed_surface(),
            &self.generated,
            self.backed_gap,
            self.supported,
            self.changes_name,
        )
    }

    /// The surface that is chosen in the end.
    pub fn whole_surface(&self) -> (result: &str)
        ensures
            result@ == self.whole(),
    {
        if self.weighed().accepts() {
            self.generated.surface.as_str()
        } else {
            self.agreed_surface()
        }
    }

    fn is_expected(&self, surface: &str) -> (result: bool)
        ensures
            result == self.expects(surface@),
    {
        matches_expected(surface, self.expected.as_slice())
    }

    fn is_expected_instead(&self, surface: &str, alternative: &Option<Alternative>) -> (result: bool)
        ensures
            result == self.expects_instead(surface@, *alternative),
    {
        match alternative {
            Some(found) => {
                if preserves_conversion(surface, found.surface.as_str(), found.changes_name) {
                    self.is_expected(found.surface.as_str())
                } else {
                    self.is_expected(surface)
                }
            },
            None => self.is_expected(surface),
        }
    }

    fn scored_long(&self, agreed: &str) -> (result: Vec<Comparison>)
        ensures
            result@ == Seq::new(
                self.variants@.len(),
                |i: int|
                    Comparison {
                        before: self.expects(agreed@),
                        after: self.expects_instead(agreed@, self.variants@[i]),
                    },
            ),
    {
        let before: bool = self.is_expected(agreed);
        let mut result: Vec<Comparison> = Vec::new();
        for index in 0..self.variants.len()
            invariant
                before == self.expects(agreed@),
                result@ == Seq::new(
                    index as nat,
                    |i: int|
                        Comparison {
                            before: self.expects(agreed@),
                            after: self.expects_instead(agreed@, self.variants@[i]),
                        },
                ),
        {
            let after: bool = self.is_expected_instead(agreed, &self.variants[index]);
            result.push(Comparison { before, after });
            assert(result@ =~= Seq::new(
                (index + 1) as nat,
                |i: int|
                    Comparison {
                        before: self.expects(agreed@),
                        after: self.expects_instead(agreed@, self.variants@[i]),
                    },
            ));
        }
        result
    }

    fn model_top_margins(&self, whole: &str) -> (result: Vec<Comparison>)
        ensures
            result@ == Seq::new(
                self.model_leads@.len(),
                |i: int|
                    switched(
                        self.expects(whole@),
                        self.expects_instead(whole@, self.model_top),
                        self.model_leads@[i],
                    ),
            ),
    {
        let before: bool = self.is_expected(whole);
        let other: bool = self.is_expected_instead(whole, &self.model_top);
        let mut result: Vec<Comparison> = Vec::new();
        for index in 0..self.model_leads.len()
            invariant
                before == self.expects(whole@),
                other == self.expects_instead(whole@, self.model_top),
                result@ == Seq::new(
                    index as nat,
                    |i: int| switched(before, other, self.model_leads@[i]),
                ),
        {
            result.push(switch(before, other, self.model_leads[index]));
            assert(result@ =~= Seq::new(
                (index + 1) as nat,
                |i: int| switched(before, other, self.model_leads@[i]),
            ));
        }
        assert(result@ =~= Seq::new(
            self.model_leads@.len(),
            |i: int|
                switched(
                    self.expects(whole@),
                    self.expects_instead(whole@, self.model_top),
                    self.model_leads@[i],
                ),
        ));
        result
    }

    fn supplemental(&self, whole: bool, raw: bool) -> (result: Vec<Comparison>)
        ensures
            result@ == Seq::new(
                5,
                |i: int|
                    switched(
                        whole,
                        raw,
                        self.takes_supplement(SUPPLEMENTAL_WHOLE_COST_GAPS@[i] as int),
                    ),
            ),
    {
        let gaps: [i32; 5] = SUPPLEMENTAL_WHOLE_COST_GAPS;
        let mut result: Vec<Comparison> = Vec::new();
        for index in 0usize..5
            invariant
                gaps == SUPPLEMENTAL_WHOLE_COST_GAPS,
                result@ == Seq::new(
                    index as nat,
                    |i: int|
                        switched(
                            whole,
                            raw,
                            self.takes_supplement(SUPPLEMENTAL_WHOLE_COST_GAPS@[i] as int),
                        ),
                ),
        {
            let takes: bool = match &self.supplement {
                Some(supplement) => supplement.selected && supplement.gap <= gaps[index],
                None => false,
            };
            result.push(switch(whole, raw, takes));
            assert(result@ =~= Seq::new(
                (index + 1) as nat,
                |i: int|
                    switched(
                        whole,
                        raw,
                        self.takes_supplement(SUPPLEMENTAL_WHOLE_COST_GAPS@[i] as int),
                    ),
            ));
        }
        result
    }

    fn supplemental_leads(&self, whole: bool, raw: bool, maximum: i32) -> (result: Vec<Comparison>)
        ensures
            result@ == Seq::new(
                SUPPLEMENTAL_MARGINS as nat,
                |j: int|
                    switched(whole, raw, self.takes_leading_supplement(maximum as int, j)),
            ),
    {
        let mut result: Vec<Comparison> = Vec::new();
        for index in 0..SUPPLEMENTAL_MARGINS
            invariant
                result@ == Seq::new(
                    index as nat,
                    |j: int|
                        switched(whole, raw, self.takes_leading_supplement(maximum as int, j)),
                ),
        {
            let takes: bool = match &self.supplement {
                Some(supplement) => supplement.gap <= maximum && index < supplement.leads.len()
                    && supplement.leads[index],
                None => false,
            };
            result.push(switch(whole, raw, takes));
            assert(result@ =~= Seq::new(
                (index + 1) as nat,
                |j: int| switched(whole, raw, self.takes_leading_supplement(maximum as int, j)),
            ));
        }
        result
    }

    fn supplemental_model(&self, whole: bool, raw: bool) -> (result: Vec<Vec<Comparison>>)
        ensures
            result@.len() == 5,
            forall|i: int|
                0 <= i < 5 ==> (#[trigger] result@[i])@ == Seq::new(
                    SUPPLEMENTAL_MARGINS as nat,
                    |j: int|
                        switched(
                            whole,
                            raw,
                            self.takes_leading_supplement(
                                SUPPLEMENTAL_WHOLE_COST_GAPS@[i] as int,
                                j,
                            ),
                        ),
                ),
    {
        let gaps: [i32; 5] = SUPPLEMENTAL_WHOLE_COST_GAPS;
        let mut result: Vec<Vec<Comparison>> = Vec::new();
        for index in 0usize..5
            invariant
                gaps == SUPPLEMENTAL_WHOLE_COST_GAPS,
                result@.len() == index,
                forall|i: int|
                    0 <= i < index ==> (#[trigger] result@[i])@ == Seq::new(
                        SUPPLEMENTAL_MARGINS as nat,
                        |j: int|
                            switched(
                                whole,
                                raw,
                                self.takes_leading_supplement(
                                    SUPPLEMENTAL_WHOLE_COST_GAPS@[i] as int,
                                    j,
                                ),
                            ),
                    ),
        {
            result.push(self.supplemental_leads(whole, raw, gaps[index]));
        }
        result
    }
}

fn delayed_long(gates: &WholeGates, strict: bool, whole: bool, raw: bool) -> (result: Vec<Comparison>)
    ensures
        result@ == Seq::new(
            4,
            |i: int|
                switched(
                    whole,
                    raw,
                    gates.accepted_beyond_window(strict, DELAYED_LONG_READING_MAXIMUMS@[i] as int),
                ),
        ),
{
    let maximums: [usize; 4] = DELAYED_LONG_READING_MAXIMUMS;
    let mut result: Vec<Comparison> = Vec::new();
    for index in 0usize..4
        invariant
            maximums == DELAYED_LONG_READING_MAXIMUMS,
            result@ == Seq::new(
                index as nat,
                |i: int|
                    switched(
                        whole,
                        raw,
                        gates.accepted_beyond_window(
                            strict,
                            DELAYED_LONG_READING_MAXIMUMS@[i] as int,
                        ),
                    ),
            ),
    {
        result.push(switch(whole, raw, gates.accepts_beyond_window(strict, maximums[index])));
        assert(result@ =~= Seq::new(
            (index + 1) as nat,
            |i: int|
                switched(
                    whole,
                    raw,
                    gates.accepted_beyond_window(
                        strict,
                        DELAYED_LONG_READING_MAXIMUMS@[i] as int,
                    ),
                ),
        ));
    }
    result
}

fn whole_reading(gates: &WholeGates, agreed: bool, raw: bool) -> (result: Vec<Comparison>)
    ensures
        result@ == Seq::new(
            5,
            |i: int|
                switched(
                    agreed,
                    raw,
                    gates.accepted_up_to_length(WHOLE_RESULT_READING_MAXIMUMS@[i] as int),
                ),
        ),
{
    let maximums: [usize; 5] = WHOLE_RESULT_READING_MAXIMUMS;
    let mut result: Vec<Comparison> = Vec::new();
    for index in 0usize..5
        invariant
            maximums == WHOLE_RESULT_READING_MAXIMUMS,
            result@ == Seq::new(
                index as nat,
                |i: int|
                    switched(
                        agreed,
                        raw,
                        gates.accepted_up_to_length(WHOLE_RESULT_READING_MAXIMUMS@[i] as int),
                    ),
            ),
    {
        result.push(switch(agreed, raw, gates.accepts_up_to_length(maximums[index])));
        assert(result@ =~= Seq::new(
            (index + 1) as nat,
            |i: int|
                switched(
                    agreed,
                    raw,
                    gates.accepted_up_to_length(WHOLE_RESULT_READING_MAXIMUMS@[i] as int),
                ),
        ));
    }
    result
}

fn long_whole(gates: &WholeGates, agreed: bool, raw: bool) -> (result: Vec<Comparison>)
    ensures
        result@ == Seq::new(
            5,
            |i: int|
                switched(
                    agreed,
                    raw,
                    gates.accepted_from_floor(LONG_WHOLE_RESULT_COST_FLOORS@[i] as int),
                ),
        ),
{
    let floors: [i32; 5] = LONG_WHOLE_RESULT_COST_FLOORS;
    let mut result: Vec<Comparison> = Vec::new();
    for index in 0usize..5
        invariant
            floors == LONG_WHOLE_RESULT_COST_FLOORS,
            result@ == Seq::new(
                index as nat,
                |i: int|
                    switched(
                        agreed,
                        raw,
                        gates.accepted_from_floor(LONG_WHOLE_RESULT_COST_FLOORS@[i] as int),
                    ),
            ),
    {
        result.push(switch(agreed, raw, gates.accepts_from_floor(floors[index])));
        assert(result@ =~= Seq::new(
            (index + 1) as nat,
            |i: int|
                switched(
                    agreed,
                    raw,
                    gates.accepted_from_floor(LONG_WHOLE_RESULT_COST_FLOORS@[i] as int),
                ),
        ));
    }
    result
}

/// The whole results up to each gap that is tried, where `also` holds.
fn whole_generation(gates: &WholeGates, also: bool, agreed: bool, raw: bool) -> (result: Vec<
    Comparison,
>)
    ensures
        result@ == Seq::new(
            7,
            |i: int|
                switched(
                    agreed,
                    raw,
                    gates.accepted_up_to_gap(WHOLE_GENERATION_COST_GAPS@[i] as int) && also,
                ),
        ),
{
    let gaps: [i32; 7] = WHOLE_GENERATION_COST_GAPS;
    let mut result: Vec<Comparison> = Vec::new();
    for index in 0usize..7
        invariant
            gaps == WHOLE_GENERATION_COST_GAPS,
            result@ == Seq::new(
                index as nat,
                |i: int|
                    switched(
                        agreed,
                        raw,
                        gates.accepted_up_to_gap(WHOLE_GENERATION_COST_GAPS@[i] as int) && also,
                    ),
            ),
    {
        result.push(switch(agreed, raw, gates.accepts_up_to_gap(gaps[index]) && also));
        assert(result@ =~= Seq::new(
            (index + 1) as nat,
            |i: int|
                switched(
                    agreed,
                    raw,
                    gates.accepted_up_to_gap(WHOLE_GENERATION_COST_GAPS@[i] as int) && also,
                ),
        ));
    }
    result
}

/// Whether findings are what the first rules make of an item: the candidates, their corrections
/// and the consensus with the generated surface.
pub open spec fn finds_choices(findings: ItemFindings, item: ItemEvidence) -> bool {
    let base = item.expects(item.base@);
    let iterative = item.expects(item.current_iterative@);
    let augmented = item.expects(item.augmented_iterative@);
    let against = Comparison { before: iterative, after: item.raw() };
    &&& findings.base == base
    &&& findings.raw == item.raw()
    &&& findings.backed == (if item.backed_gap is Some {
        Some(Comparison { before: base, after: item.raw() })
    } else {
        None
    })
    &&& findings.rescored == (Comparison {
        before: item.expects(item.current@),
        after: item.expects(item.augmented@),
    })
    &&& findings.current_prefix == item.expects(item.current_prefix@)
    &&& findings.augmented_prefix == item.expects(item.augmented_prefix@)
    &&& findings.iterative == (Comparison { before: iterative, after: augmented })
    &&& findings.existing == (if item.existing.local {
        Some(against)
    } else {
        None
    })
    &&& findings.near_tie == (if item.existing.local && item.ties.model {
        Some(against)
    } else {
        None
    })
    &&& findings.consensus == (Comparison { before: augmented, after: item.consents() })
    &&& findings.contrast == (Comparison {
        before: item.consents(),
        after: item.expects(item.contrasted()),
    })
    &&& findings.multi_region == (Comparison {
        before: item.expects(item.contrasted()),
        after: item.expects(item.agreed()),
    })
}

/// Whether findings are what the rules for whole results make of an item.
pub open spec fn finds_whole_results(findings: ItemFindings, item: ItemEvidence) -> bool {
    let agreed = item.expects(item.agreed());
    let whole = item.expects(item.whole());
    let gates = item.gates();
    &&& findings.scored_long@ == Seq::new(
        item.variants@.len(),
        |i: int|
            Comparison {
                before: agreed,
                after: item.expects_instead(item.agreed(), item.variants@[i]),
            },
    )
    &&& findings.whole == whole
    &&& findings.block == gates.failing_gate()
    &&& findings.model_top@ == Seq::new(
        item.model_leads@.len(),
        |i: int|
            switched(
                whole,
                item.expects_instead(item.whole(), item.model_top),
                item.model_leads@[i],
            ),
    )
    &&& findings.delayed_long@ == Seq::new(
        4,
        |i: int|
            switched(
                whole,
                item.raw(),
                gates.accepted_beyond_window(
                    item.strict_support,
                    DELAYED_LONG_READING_MAXIMUMS@[i] as int,
                ),
            ),
    )
    &&& findings.whole_reading@ == Seq::new(
        5,
        |i: int|
            switched(
                agreed,
                item.raw(),
                gates.accepted_up_to_length(WHOLE_RESULT_READING_MAXIMUMS@[i] as int),
            ),
    )
    &&& findings.long_whole@ == Seq::new(
        5,
        |i: int|
            switched(
                agreed,
                item.raw(),
                gates.accepted_from_floor(LONG_WHOLE_RESULT_COST_FLOORS@[i] as int),
            ),
    )
    &&& findings.whole_generation@ == Seq::new(
        7,
        |i: int|
            switched(
                agreed,
                item.raw(),
                gates.accepted_up_to_gap(WHOLE_GENERATION_COST_GAPS@[i] as int),
            ),
    )
    &&& findings.same_length@ == Seq::new(
        7,
        |i: int|
            switched(
                agreed,
                item.raw(),
                gates.accepted_up_to_gap(WHOLE_GENERATION_COST_GAPS@[i] as int)
                    && gates.same_length,
            ),
    )
    &&& findings.preserving@ == Seq::new(
        7,
        |i: int|
            switched(
                agreed,
                item.raw(),
                gates.accepted_up_to_gap(WHOLE_GENERATION_COST_GAPS@[i] as int)
                    && gates.keeps_kanji,
            ),
    )
}

/// Whether findings are what the rules for supplements make of an item.
pub open spec fn finds_supplements(findings: ItemFindings, item: ItemEvidence) -> bool {
    let whole = item.expects(item.whole());
    &&& findings.supplemental@ == Seq::new(
        5,
        |i: int|
            switched(
                whole,
                item.raw(),
                item.takes_supplement(SUPPLEMENTAL_WHOLE_COST_GAPS@[i] as int),
            ),
    )
    &&& findings.supplemental_model@.len() == 5
    &&& forall|i: int|
        0 <= i < 5 ==> (#[trigger] findings.supplemental_model@[i])@ == Seq::new(
            SUPPLEMENTAL_MARGINS as nat,
            |j: int|
                switched(
                    whole,
                    item.raw(),
                    item.takes_leading_supplement(SUPPLEMENTAL_WHOLE_COST_GAPS@[i] as int, j),
                ),
        )
}

/// What each rule makes of an item.
pub fn judge_item(item: &ItemEvidence) -> (result: ItemFindings)
    ensures
        finds_choices(result, *item),
        finds_whole_results(result, *item),
        finds_supplements(result, *item),
{
    let surface: &str = item.generated.surface.as_str();
    let raw: bool = item.is_expected(surface);
    let base: bool = item.is_expected(item.base.as_str());
    let current: bool = item.is_expected(item.current_iterative.as_str());
    let augmented: bool = item.is_expected(item.augmented_iterative.as_str());
    let consents: bool = if item.existing.local && item.ties.model {
        raw
    } else {
        augmented
    };
    let contrasted: &str = item.contrasted_surface();
    let agreed: &str = item.agreed_surface();
    let contrast_matches: bool = item.is_expected(contrasted);
    let agreed_matches: bool = item.is_expected(agreed);
    let gates: WholeGates = item.weighed();
    let whole: &str = item.whole_surface();
    let whole_matches: bool = item.is_expected(whole);
    let against: Comparison = Comparison { before: current, after: raw };
    let findings: ItemFindings = ItemFindings {
        base,
        raw,
        backed: if item.backed_gap.is_some() {
            Some(Comparison { before: base, after: raw })
        } else {
            None
        },
        rescored: Comparison {
            before: item.is_expected(item.current.as_str()),
            after: item.is_expected(item.augmented.as_str()),
        },
        current_prefix: item.is_expected(item.current_prefix.as_str()),
        augmented_prefix: item.is_expected(item.augmented_prefix.as_str()),
        iterative: Comparison { before: current, after: augmented },
        existing: if item.existing.local {
            Some(against)
        } else {
            None
        },
        near_tie: if item.existing.local && item.ties.model {
            Some(against)
        } else {
            None
        },
        consensus: Comparison { before: augmented, after: consents },
        contrast: Comparison { before: consents, after: contrast_matches },
        multi_region: Comparison { before: contrast_matches, after: agreed_matches },
        scored_long: item.scored_long(agreed),
        whole: whole_matches,
        block: gates.block(),
        model_top: item.model_top_margins(whole),
        supplemental: item.supplemental(whole_matches, raw),
        supplemental_model: item.supplemental_model(whole_matches, raw),
        delayed_long: delayed_long(&gates, item.strict_support, whole_matches, raw),
        whole_reading: whole_reading(&gates, agreed_matches, raw),
        long_whole: long_whole(&gates, agreed_matches, raw),
        whole_generation: whole_generation(&gates, true, agreed_matches, raw),
        same_length: whole_generation(&gates, gates.same_length, agreed_matches, raw),
        preserving: whole_generation(&gates, gates.keeps_kanji, agreed_matches, raw),
    };
    assert(findings.scored_long@ =~= Seq::new(
        item.variants@.len(),
        |i: int|
            Comparison {
                before: agreed_matches,
                after: item.expects_instead(item.agreed(), item.variants@[i]),
            },
    ));
    assert(findings.model_top@ =~= Seq::new(
        item.model_leads@.len(),
        |i: int|
            switched(
                whole_matches,
                item.expects_instead(item.whole(), item.model_top),
                item.model_leads@[i],
            ),
    ));
    let ghost owed = item.gates();
    assert(findings.delayed_long@ =~= Seq::new(
        4,
        |i: int|
            switched(
                whole_matches,
                item.raw(),
                owed.accepted_beyond_window(
                    item.strict_support,
                    DELAYED_LONG_READING_MAXIMUMS@[i] as int,
                ),
            ),
    ));
    assert(findings.whole_reading@ =~= Seq::new(
        5,
        |i: int|
            switched(
                agreed_matches,
                item.raw(),
                owed.accepted_up_to_length(WHOLE_RESULT_READING_MAXIMUMS@[i] as int),
            ),
    ));
    assert(findings.long_whole@ =~= Seq::new(
        5,
        |i: int|
            switched(
                agreed_matches,
                item.raw(),
                owed.accepted_from_floor(LONG_WHOLE_RESULT_COST_FLOORS@[i] as int),
            ),
    ));
    assert(findings.whole_generation@ =~= Seq::new(
        7,
        |i: int|
            switched(
                agreed_matches,
                item.raw(),
                owed.accepted_up_to_gap(WHOLE_GENERATION_COST_GAPS@[i] as int),
            ),
    ));
    assert(findings.same_length@ =~= Seq::new(
        7,
        |i: int|
            switched(
                agreed_matches,
                item.raw(),
                owed.accepted_up_to_gap(WHOLE_GENERATION_COST_GAPS@[i] as int)
                    && owed.same_length,
            ),
    ));
    assert(findings.preserving@ =~= Seq::new(
        7,
        |i: int|
            switched(
                agreed_matches,
                item.raw(),
                owed.accepted_up_to_gap(WHOLE_GENERATION_COST_GAPS@[i] as int)
                    && owed.keeps_kanji,
            ),
    ));
    findings
}

/// The sweep over gaps finds, at the gap in force and with kanji kept, what is chosen in the end.
pub proof fn the_sweep_finds_what_is_chosen(findings: ItemFindings, item: ItemEvidence)
    requires
        finds_whole_results(findings, item),
    ensures
        findings.preserving@[1].after == findings.whole,
{
    assert(WHOLE_GENERATION_COST_GAPS@[1] == 1_000);
}

/// The comparisons at one place of some sweeps.
pub open spec fn column(rows: Seq<Vec<Comparison>>, place: int) -> Seq<Comparison> {
    Seq::new(rows.len(), |i: int| rows[i]@[place])
}

/// Counts the comparisons at one place of some sweeps.
pub fn tally_column(rows: &[Vec<Comparison>], place: usize) -> (result: Tally)
    requires
        forall|i: int| 0 <= i < rows@.len() ==> place < (#[trigger] rows@[i])@.len(),
    ensures
        result.correct == crate::tally::count_correct(column(rows@, place as int)),
        result.improvements == crate::tally::count_improvements(column(rows@, place as int)),
        result.regressions == crate::tally::count_regressions(column(rows@, place as int)),
{
    let mut comparisons: Vec<Comparison> = Vec::new();
    for index in 0..rows.len()
        invariant
            forall|i: int| 0 <= i < rows@.len() ==> place < (#[trigger] rows@[i])@.len(),
            comparisons@ == column(rows@, place as int).take(index as int),
    {
        comparisons.push(rows[index][place]);
        assert(comparisons@ =~= column(rows@, place as int).take(index + 1));
    }
    assert(comparisons@ =~= column(rows@, place as int));
    tally_of(comparisons.as_slice())
}

/// What is compared is whether the surfaces that are chosen are expected ones: the first candidate,
/// the scored one with and without the generated surface, their corrections, and the surfaces that
/// near ties and whole results replace by the generated one.
pub proof fn findings_compare_the_chosen_surfaces(findings: ItemFindings, item: ItemEvidence)
    requires
        finds_choices(findings, item),
        finds_whole_results(findings, item),
    ensures
        ({
            let right = |surface: Seq<char>| texts(item.expected@).contains(surface);
            let generated = item.generated.surface@;
            let contrasted = if item.existing.local && item.ties.contrast {
                generated
            } else {
                item.contrast_iterative@
            };
            let agreed = if item.existing.multi_region && item.ties.contrast_multi_region {
                generated
            } else {
                contrasted
            };
            &&& findings.base == right(item.base@)
            &&& findings.raw == right(generated)
            &&& findings.backed is Some <==> item.backed_gap is Some
            &&& findings.backed matches Some(change) ==> change.before == right(item.base@)
                && change.after == right(generated)
            &&& findings.rescored.before == right(item.current@)
            &&& findings.rescored.after == right(item.augmented@)
            &&& findings.current_prefix == right(item.current_prefix@)
            &&& findings.augmented_prefix == right(item.augmented_prefix@)
            &&& findings.iterative.before == right(item.current_iterative@)
            &&& findings.iterative.after == right(item.augmented_iterative@)
            &&& findings.consensus.before == right(item.augmented_iterative@)
            &&& findings.consensus.after == (if item.existing.local && item.ties.model {
                right(generated)
            } else {
                right(item.augmented_iterative@)
            })
            &&& findings.contrast.before == findings.consensus.after
            &&& findings.contrast.after == right(contrasted)
            &&& findings.multi_region.before == right(contrasted)
            &&& findings.multi_region.after == right(agreed)
            &&& findings.whole == (if item.gates().accepted() {
                right(generated)
            } else {
                right(agreed)
            })
        }),
{
}

/// What is weighed is the generated surface against the agreed one.
pub proof fn the_generated_surface_is_weighed_against_the_agreed_one(item: ItemEvidence)
    requires
        item.input@.len() <= usize::MAX,
    ensures
        ({
            let gates = item.gates();
            &&& gates.reading_characters == item.input@.len()
            &&& gates.complete == item.generated.stopped_at_eos
            &&& gates.cost_gap == item.backed_gap
            &&& gates.supported == item.supported
            &&& gates.keeps_names == !item.changes_name
            &&& gates.same_length == (item.agreed().len() == item.generated.surface@.len())
            &&& gates.keeps_ascii == (ascii_part(item.agreed()) == ascii_part(
                item.generated.surface@,
            ))
            &&& gates.keeps_kanji == keeps_kanji(item.agreed(), item.generated.surface@)
        }),
{
}

/// A supplement replaces the chosen surface up to each gap only if it was selected, and with each
/// margin only if its score leads by as much.
pub proof fn supplements_replace_the_chosen_surface(
    findings: ItemFindings,
    item: ItemEvidence,
    gap: int,
    margin: int,
)
    requires
        finds_supplements(findings, item),
        0 <= gap < 5,
        0 <= margin < SUPPLEMENTAL_MARGINS,
    ensures
        ({
            let whole = texts(item.expected@).contains(item.whole());
            let raw = texts(item.expected@).contains(item.generated.surface@);
            let most = SUPPLEMENTAL_WHOLE_COST_GAPS@[gap];
            &&& findings.supplemental@[gap].before == whole
            &&& findings.supplemental@[gap].after == (if item.supplement is Some
                && item.supplement->0.selected && item.supplement->0.gap <= most {
                raw
            } else {
                whole
            })
            &&& findings.supplemental_model@[gap]@[margin].before == whole
            &&& findings.supplemental_model@[gap]@[margin].after == (if item.supplement is Some
                && margin < item.supplement->0.leads@.len() && item.supplement->0.leads@[margin]
                && item.supplement->0.gap <= most {
                raw
            } else {
                whole
            })
        }),
{
}

} // verus!
