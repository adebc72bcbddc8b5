//! Rules that prefer a surface behind another one, taken from private annotated text.

use vstd::multiset::*;
use vstd::prelude::*;
use vstd::seq_lib::*;
use vstd::string::*;

use crate::candidate::first_expected;
use crate::corpus::{ignorable_line, is_ignorable, TextPair};
use crate::corpus_bigram::{
    incremented, pair_before, pair_order, transition_before, Entry, Transition, TransitionCounts,
};
use crate::order::{
    is_ranked, place_text, sorted, text_before, text_order_is_asymmetric, text_order_is_irreflexive,
    text_order_is_total, text_order_is_transitive, Placement, Ranked, TextSet,
};
use crate::primitives::{letter_or_number, sha256};
use crate::private_corpus::{
    annotated_line, corpus_error, hash_tokens, hex, hex_text, is_valid_field, line_bytes,
    normalize_phonetic_reading, parse_annotated_line, phonetic_reading, token_views,
    valid_token_field, Token,
};
use crate::text::{
    characters, count_text, decimal, joined, lines, lines_of, same_text, texts,
};

verus! {

broadcast use group_to_multiset_ensures;

/// How many different observations a corpus may hold.
pub const MAX_UNIQUE_CONTEXTS: usize = 1_000_000;

/// For how many different readings candidates are searched.
pub const MAX_UNIQUE_READINGS: usize = 100_000;

/// How many rules may be asked for.
pub const MAX_RULES: usize = 100_000;

// ---------------------------------------------------------------------------
// Observations
// ---------------------------------------------------------------------------

/// Whether a surface can be a context: a valid field with a letter or a number in it.
pub open spec fn is_context_surface(surface: Seq<char>) -> bool {
    is_valid_field(surface) && exists|i: int|
        0 <= i < surface.len() && letter_or_number(#[trigger] surface[i])
}

pub fn valid_context_surface(surface: &str) -> (result: bool)
    ensures
        result == is_context_surface(surface@),
{
    if !valid_token_field(surface) {
        return false;
    }
    let letters: Vec<char> = characters(surface);
    for index in 0..letters.len()
        invariant
            letters@ == surface@,
            is_valid_field(surface@),
            forall|i: int| 0 <= i < index ==> !letter_or_number(#[trigger] surface@[i]),
    {
        if letters[index].is_alphanumeric() {
            assert(letter_or_number(surface@[index as int]));
            return true;
        }
    }
    false
}

/// One more, up to the greatest count.
pub open spec fn more(value: usize, added: nat) -> usize {
    if value + added > usize::MAX {
        usize::MAX
    } else {
        (value + added) as usize
    }
}

/// What was seen so far, as a mathematical value.
pub ghost struct ObservationView {
    /// How often each surface was seen behind a surface for a reading.
    pub counts: Map<Transition, u32>,
    /// The digests of the lines that were taken.
    pub seen: Set<Seq<char>>,
    pub lines: usize,
    pub accepted_lines: usize,
    pub duplicate_lines: usize,
    pub excluded_lines: usize,
    pub tokens: usize,
    pub observations: usize,
    pub skipped_non_phonetic: usize,
}

/// The digest of a line in hexadecimal digits.
pub open spec fn line_digest(tokens: Seq<TextPair>) -> Seq<char> {
    hex(sha256(line_bytes(tokens)))
}

pub fn digest_of_line(tokens: &[Token]) -> (result: String)
    ensures
        result@ == line_digest(token_views(tokens@)),
{
    let digest: Vec<u8> = hash_tokens(tokens);
    hex_text(digest.as_slice())
}

/// The message on a corpus with too many observations.
pub open spec fn too_many_observations() -> Seq<char> {
    "training corpus exceeds the "@ + decimal(MAX_UNIQUE_CONTEXTS as nat)
        + " unique observation limit"@
}

/// What was seen after one more pair of tokens.
pub open spec fn with_pair(view: ObservationView, previous: TextPair, current: TextPair) -> Result<
    ObservationView,
    Seq<char>,
> {
    match phonetic_reading(current.1) {
        None => Ok(
            ObservationView { skipped_non_phonetic: more(view.skipped_non_phonetic, 1), ..view },
        ),
        Some(reading) => {
            let key = ((previous.0, reading), (current.0, ""@));
            if !is_context_surface(previous.0) {
                Ok(
                    ObservationView {
                        skipped_non_phonetic: more(view.skipped_non_phonetic, 1),
                        ..view
                    },
                )
            } else if !view.counts.contains_key(key) && view.counts.dom().len()
                >= MAX_UNIQUE_CONTEXTS {
                Err(too_many_observations())
            } else {
                Ok(
                    ObservationView {
                        counts: incremented(view.counts, key),
                        observations: more(view.observations, 1),
                        ..view
                    },
                )
            }
        },
    }
}

/// What was seen after the pairs of the first `count` tokens of a line.
pub open spec fn with_pairs(view: ObservationView, tokens: Seq<TextPair>, count: int) -> Result<
    ObservationView,
    Seq<char>,
>
    decreases count,
{
    if count <= 1 {
        Ok(view)
    } else {
        match with_pairs(view, tokens, count - 1) {
            Err(error) => Err(error),
            Ok(before) => with_pair(before, tokens[count - 2], tokens[count - 1]),
        }
    }
}

/// What was seen after one more line: lines that say nothing, that are excluded or that were
/// seen before count for nothing.
pub open spec fn with_line(
    view: ObservationView,
    exclusions: Set<Seq<char>>,
    line: Seq<char>,
    number: nat,
) -> Result<ObservationView, Seq<char>> {
    let read = ObservationView { lines: more(view.lines, 1), ..view };
    if is_ignorable(line) {
        Ok(read)
    } else {
        match annotated_line(line) {
            Err(problem) => Err(corpus_error(number, problem)),
            Ok(tokens) => {
                let digest = line_digest(tokens);
                if exclusions.contains(digest) {
                    Ok(ObservationView { excluded_lines: more(view.excluded_lines, 1), ..read })
                } else if view.seen.contains(digest) {
                    Ok(ObservationView { duplicate_lines: more(view.duplicate_lines, 1), ..read })
                } else {
                    with_pairs(
                        ObservationView {
                            seen: view.seen.insert(digest),
                            accepted_lines: more(view.accepted_lines, 1),
                            tokens: more(view.tokens, tokens.len()),
                            ..read
                        },
                        tokens,
                        tokens.len() as int,
                    )
                }
            },
        }
    }
}

/// What was seen after the first `count` lines of a source.
pub open spec fn with_lines(
    view: ObservationView,
    exclusions: Set<Seq<char>>,
    rows: Seq<Seq<char>>,
    count: int,
) -> Result<ObservationView, Seq<char>>
    decreases count,
{
    if count <= 0 {
        Ok(view)
    } else {
        match with_lines(view, exclusions, rows, count - 1) {
            Err(error) => Err(error),
            Ok(before) => with_line(before, exclusions, rows[count - 1], count as nat),
        }
    }
}

/// What was seen in a training corpus.
#[derive(Debug)]
pub struct Observations {
    pub counts: TransitionCounts,
    pub seen: TextSet,
    pub lines: usize,
    pub accepted_lines: usize,
    pub duplicate_lines: usize,
    pub excluded_lines: usize,
    pub tokens: usize,
    pub observations: usize,
    pub skipped_non_phonetic: usize,
}

impl View for Observations {
    type V = ObservationView;

    open spec fn view(&self) -> ObservationView {
        ObservationView {
            counts: self.counts@,
            seen: self.seen@,
            lines: self.lines,
            accepted_lines: self.accepted_lines,
            duplicate_lines: self.duplicate_lines,
            excluded_lines: self.excluded_lines,
            tokens: self.tokens,
            observations: self.observations,
            skipped_non_phonetic: self.skipped_non_phonetic,
        }
    }
}

/// Nothing was seen yet.
pub open spec fn nothing_seen() -> ObservationView {
    ObservationView {
        counts: Map::empty(),
        seen: Set::empty(),
        lines: 0,
        accepted_lines: 0,
        duplicate_lines: 0,
        excluded_lines: 0,
        tokens: 0,
        observations: 0,
        skipped_non_phonetic: 0,
    }
}

impl Observations {
    pub open spec fn well_formed(&self) -> bool {
        self.counts.well_formed() && self.seen.well_formed()
    }

    pub fn new() -> (result: Self)
        ensures
            result.well_formed(),
            result@ == nothing_seen(),
    {
        Observations {
            counts: TransitionCounts::new(),
            seen: TextSet::new(),
            lines: 0,
            accepted_lines: 0,
            duplicate_lines: 0,
            excluded_lines: 0,
            tokens: 0,
            observations: 0,
            skipped_non_phonetic: 0,
        }
    }

    fn observe_pair(&mut self, previous: &Token, current: &Token) -> (result: Result<(), String>)
        requires
            old(self).well_formed(),
        ensures
            final(self).well_formed(),
            match with_pair(old(self)@, previous@, current@) {
                Ok(view) => result is Ok && final(self)@ == view,
                Err(error) => result is Err && result->Err_0@ == error,
            },
    {
        let reading: String = match normalize_phonetic_reading(current.reading.as_str()) {
            None => {
                self.skipped_non_phonetic = self.skipped_non_phonetic.saturating_add(1);
                return Ok(());
            },
            Some(reading) => reading,
        };
        if !valid_context_surface(previous.surface.as_str()) {
            self.skipped_non_phonetic = self.skipped_non_phonetic.saturating_add(1);
            return Ok(());
        }
        let context: (&str, &str) = (previous.surface.as_str(), reading.as_str());
        let chosen: (&str, &str) = (current.surface.as_str(), "");
        proof {
            self.counts.entry_count_is_the_number_of_transitions();
        }
        if self.counts.len() >= MAX_UNIQUE_CONTEXTS && !self.counts.holds(context, chosen) {
            let limit: String = count_text(MAX_UNIQUE_CONTEXTS);
            let start: String = joined("training corpus exceeds the ", limit.as_str());
            return Err(joined(start.as_str(), " unique observation limit"));
        }
        self.observations = self.observations.saturating_add(1);
        self.counts.increment(context, chosen);
        Ok(())
    }

    fn observe_pairs(&mut self, tokens: &[Token]) -> (result: Result<(), String>)
        requires
            old(self).well_formed(),
        ensures
            final(self).well_formed(),
            match with_pairs(old(self)@, token_views(tokens@), tokens@.len() as int) {
                Ok(view) => result is Ok && final(self)@ == view,
                Err(error) => result is Err && result->Err_0@ == error,
            },
    {
        let ghost start = self@;
        let ghost all = token_views(tokens@);
        if tokens.len() < 2 {
            return Ok(());
        }
        for index in 1..tokens.len()
            invariant
                self.well_formed(),
                all == token_views(tokens@),
                start == old(self)@,
                with_pairs(start, all, index as int) == Ok::<ObservationView, Seq<char>>(self@),
        {
            assert(all[index - 1] == tokens@[index - 1]@);
            assert(all[index as int] == tokens@[index as int]@);
            match self.observe_pair(&tokens[index - 1], &tokens[index]) {
                Ok(()) => {},
                Err(error) => {
                    proof {
                        pair_error_stays(start, all, index + 1, all.len() as int);
                    }
                    return Err(error);
                },
            }
        }
        Ok(())
    }

    fn observe_line(&mut self, line: &str, number: usize, exclusions: &TextSet) -> (result: Result<
        (),
        String,
    >)
        requires
            old(self).well_formed(),
            exclusions.well_formed(),
        ensures
            final(self).well_formed(),
            match with_line(old(self)@, exclusions@, line@, number as nat) {
                Ok(view) => result is Ok && final(self)@ == view,
                Err(error) => result is Err && result->Err_0@ == error,
            },
    {
        self.lines = self.lines.saturating_add(1);
        if ignorable_line(line) {
            return Ok(());
        }
        let tokens: Vec<Token> = match parse_annotated_line(line, number) {
            Ok(tokens) => tokens,
            Err(error) => return Err(error),
        };
        let digest: String = digest_of_line(tokens.as_slice());
        if exclusions.contains(digest.as_str()) {
            self.excluded_lines = self.excluded_lines.saturating_add(1);
            return Ok(());
        }
        if !self.seen.insert(digest.as_str()) {
            assert(self.seen@ =~= old(self).seen@);
            self.duplicate_lines = self.duplicate_lines.saturating_add(1);
            return Ok(());
        }
        self.accepted_lines = self.accepted_lines.saturating_add(1);
        self.tokens = self.tokens.saturating_add(tokens.len());
        self.observe_pairs(tokens.as_slice())
    }

    /// Observes every line of a source. Lines whose digest is excluded count for nothing. After
    /// an error the counts cover the source only in part.
    pub fn observe(&mut self, source: &str, exclusions: &TextSet) -> (result: Result<(), String>)
        requires
            old(self).well_formed(),
            exclusions.well_formed(),
        ensures
            final(self).well_formed(),
            match with_lines(
                old(self)@,
                exclusions@,
                lines(source@),
                lines(source@).len() as int,
            ) {
                Ok(view) => result is Ok && final(self)@ == view,
                Err(error) => result is Err && result->Err_0@ == error,
            },
    {
        let rows: Vec<String> = lines_of(source);
        let ghost all = lines(source@);
        let ghost start = self@;
        for index in 0..rows.len()
            invariant
                self.well_formed(),
                exclusions.well_formed(),
                all == texts(rows@),
                all == lines(source@),
                start == old(self)@,
                with_lines(start, exclusions@, all, index as int) == Ok::<
                    ObservationView,
                    Seq<char>,
                >(self@),
        {
            assert(all[index as int] == rows@[index as int]@);
            match self.observe_line(rows[index].as_str(), index + 1, exclusions) {
                Ok(()) => {},
                Err(error) => {
                    proof {
                        line_error_stays(start, exclusions@, all, index + 1, all.len() as int);
                    }
                    return Err(error);
                },
            }
        }
        Ok(())
    }

    /// Whether anything was seen that rules can be taken from.
    pub fn check_usable(&self) -> (result: Result<(), String>)
        requires
            self.well_formed(),
        ensures
            result is Ok <==> self.accepted_lines > 0 && self.counts.entry_count() > 0,
            result matches Err(error) ==> error@ == (if self.accepted_lines == 0 {
                "training corpus contains no usable lines"@
            } else {
                "training corpus contains no usable context observations"@
            }),
    {
        if self.accepted_lines == 0 {
            Err("training corpus contains no usable lines".to_owned())
        } else if self.counts.len() == 0 {
            Err("training corpus contains no usable context observations".to_owned())
        } else {
            Ok(())
        }
    }
}

proof fn pair_error_stays(view: ObservationView, tokens: Seq<TextPair>, low: int, high: int)
    requires
        with_pairs(view, tokens, low) is Err,
        0 <= low <= high,
    ensures
        with_pairs(view, tokens, high) == with_pairs(view, tokens, low),
    decreases high - low,
{
    if low < high {
        pair_error_stays(view, tokens, low, high - 1);
    }
}

proof fn line_error_stays(
    view: ObservationView,
    exclusions: Set<Seq<char>>,
    rows: Seq<Seq<char>>,
    low: int,
    high: int,
)
    requires
        with_lines(view, exclusions, rows, low) is Err,
        0 <= low <= high,
    ensures
        with_lines(view, exclusions, rows, high) == with_lines(view, exclusions, rows, low),
    decreases high - low,
{
    if low < high {
        line_error_stays(view, exclusions, rows, low, high - 1);
    }
}

/// A line that is held out, or that was taken before, adds no observation.
pub proof fn held_out_and_repeated_lines_add_nothing(
    view: ObservationView,
    exclusions: Set<Seq<char>>,
    line: Seq<char>,
    number: nat,
)
    requires
        annotated_line(line) is Ok,
        exclusions.contains(line_digest(annotated_line(line)->Ok_0)) || view.seen.contains(
            line_digest(annotated_line(line)->Ok_0),
        ),
    ensures
        with_line(view, exclusions, line, number) is Ok,
        with_line(view, exclusions, line, number)->Ok_0.counts == view.counts,
        with_line(view, exclusions, line, number)->Ok_0.observations == view.observations,
        with_line(view, exclusions, line, number)->Ok_0.accepted_lines == view.accepted_lines,
{
}

/// The digests of the first `count` lines of a source that says which lines to hold out.
pub open spec fn excluded_digests(
    digests: Set<Seq<char>>,
    rows: Seq<Seq<char>>,
    count: int,
) -> Result<Set<Seq<char>>, Seq<char>>
    decreases count,
{
    if count <= 0 {
        Ok(digests)
    } else {
        match excluded_digests(digests, rows, count - 1) {
            Err(error) => Err(error),
            Ok(before) => if is_ignorable(rows[count - 1]) {
                Ok(before)
            } else {
                match annotated_line(rows[count - 1]) {
                    Err(problem) => Err(corpus_error(count as nat, problem)),
                    Ok(tokens) => Ok(before.insert(line_digest(tokens))),
                }
            },
        }
    }
}

proof fn digest_error_stays(digests: Set<Seq<char>>, rows: Seq<Seq<char>>, low: int, high: int)
    requires
        excluded_digests(digests, rows, low) is Err,
        0 <= low <= high,
    ensures
        excluded_digests(digests, rows, high) == excluded_digests(digests, rows, low),
    decreases high - low,
{
    if low < high {
        digest_error_stays(digests, rows, low, high - 1);
    }
}

/// Adds the digests of the lines that a source holds out. If a line is in error, those of all
/// lines before it are kept.
pub fn load_exclusion_hashes(source: &str, digests: &mut TextSet) -> (result: Result<(), String>)
    requires
        old(digests).well_formed(),
    ensures
        final(digests).well_formed(),
        match excluded_digests(
            old(digests)@,
            lines(source@),
            lines(source@).len() as int,
        ) {
            Ok(all) => result is Ok && final(digests)@ == all,
            Err(error) => result is Err && result->Err_0@ == error && exists|row: int|
                0 <= row < lines(source@).len() && (#[trigger] excluded_digests(
                    old(digests)@,
                    lines(source@),
                    row,
                )) == Ok::<Set<Seq<char>>, Seq<char>>(final(digests)@) && excluded_digests(
                    old(digests)@,
                    lines(source@),
                    row + 1,
                ) is Err,
        },
{
    let rows: Vec<String> = lines_of(source);
    let ghost all = lines(source@);
    let ghost start = digests@;
    for index in 0..rows.len()
        invariant
            digests.well_formed(),
            all == texts(rows@),
            all == lines(source@),
            start == old(digests)@,
            excluded_digests(start, all, index as int) == Ok::<Set<Seq<char>>, Seq<char>>(digests@),
    {
        assert(all[index as int] == rows@[index as int]@);
        if !ignorable_line(rows[index].as_str()) {
            match parse_annotated_line(rows[index].as_str(), index + 1) {
                Ok(tokens) => {
                    let digest: String = digest_of_line(tokens.as_slice());
                    let added: bool = digests.insert(digest.as_str());
                },
                Err(error) => {
                    proof {
                        digest_error_stays(start, all, index + 1, all.len() as int);
                    }
                    return Err(error);
                },
            }
        }
    }
    Ok(())
}

// ---------------------------------------------------------------------------
// Observations by context
// ---------------------------------------------------------------------------

/// The surfaces that were seen for a reading behind a surface, with their counts.
#[derive(Debug, PartialEq, Eq)]
pub struct ContextObservations {
    pub previous_surface: String,
    pub reading: String,
    pub surfaces: Vec<(String, u32)>,
}

/// A surface with its count.
pub type Counted = (Seq<char>, u32);

/// The surfaces with their counts.
pub open spec fn counted(surfaces: Seq<(String, u32)>) -> Seq<Counted> {
    Seq::new(surfaces.len(), |i: int| (surfaces[i].0@, surfaces[i].1))
}

impl ContextObservations {
    pub open spec fn context(self) -> TextPair {
        (self.previous_surface@, self.reading@)
    }
}

/// The observations of some contexts, one behind the other.
pub open spec fn flattened(groups: Seq<ContextObservations>) -> Seq<(TextPair, Counted)>
    decreases groups.len(),
{
    if groups.len() == 0 {
        Seq::empty()
    } else {
        flattened(groups.drop_last()) + counted(groups.last().surfaces@).map_values(
            |observation: Counted| (groups.last().context(), observation),
        )
    }
}

/// The observations that were counted, one behind the other.
pub open spec fn unfolded(listed: Seq<(Transition, u32)>) -> Seq<(TextPair, Counted)> {
    listed.map_values(
        |entry: (Transition, u32)| (entry.0.0, (entry.0.1.0, entry.1)),
    )
}

/// Whether each context has observations and no context stands twice.
pub open spec fn are_separate(groups: Seq<ContextObservations>) -> bool {
    &&& forall|i: int| 0 <= i < groups.len() ==> (#[trigger] groups[i]).surfaces@.len() > 0
    &&& forall|i: int, j: int|
        0 <= i < j < groups.len() ==> (#[trigger] groups[i]).context() != (
        #[trigger] groups[j]).context()
}

/// Whether the contexts stand in their order, each once.
pub open spec fn contexts_ascend(groups: Seq<ContextObservations>) -> bool {
    forall|i: int, j: int|
        0 <= i < j < groups.len() ==> pair_before(
            (#[trigger] groups[i]).context(),
            (#[trigger] groups[j]).context(),
        )
}

/// Contexts that ascend are pairwise different.
pub proof fn ascending_contexts_are_different(groups: Seq<ContextObservations>)
    requires
        contexts_ascend(groups),
    ensures
        forall|i: int, j: int|
            0 <= i < j < groups.len() ==> (#[trigger] groups[i]).context() != (
            #[trigger] groups[j]).context(),
{
    assert forall|i: int, j: int| 0 <= i < j < groups.len() implies (
    #[trigger] groups[i]).context() != (#[trigger] groups[j]).context() by {
        let context = groups[i].context();
        pair_order(context, context, context);
    }
}

/// The counted observations by context, in the order of the contexts.
pub fn grouped(counts: &TransitionCounts) -> (result: Vec<ContextObservations>)
    requires
        counts.well_formed(),
    ensures
        flattened(result@) == unfolded(counts.listed()),
        are_separate(result@),
        contexts_ascend(result@),
{
    let mut result: Vec<ContextObservations> = Vec::new();
    let ghost all = unfolded(counts.listed());
    proof {
        counts.every_transition_is_listed();
    }
    assert(flattened(result@) =~= all.take(0));
    let total: usize = counts.len();
    for index in 0..total
        invariant
            total == counts.entry_count(),
            counts.well_formed(),
            counts.listed().len() == counts.entry_count(),
            all == unfolded(counts.listed()),
            flattened(result@) == all.take(index as int),
            forall|i: int| 0 <= i < result@.len() ==> (#[trigger] result@[i]).surfaces@.len() > 0,
            contexts_ascend(result@),
            index == 0 ==> result@.len() == 0,
            index > 0 ==> result@.len() > 0 && result@.last().context() == all[index - 1].0,
    {
        let entry: &Entry = counts.entry(index);
        let ghost before = result@;
        let count: usize = result.len();
        assert(all.len() == total);
        assert(all[index as int] == (entry.key().0, (entry.current_surface@, entry.count)));
        assert(all.take(index + 1) =~= all.take(index as int).push(all[index as int]));
        if count > 0 && same_text(
            result[count - 1].previous_surface.as_str(),
            entry.previous_surface.as_str(),
        ) && same_text(result[count - 1].reading.as_str(), entry.previous_reading.as_str()) {
            let mut last: ContextObservations = result.pop().unwrap();
            let ghost old_last = last;
            last.surfaces.push((entry.current_surface.clone(), entry.count));
            let ghost new_last = last;
            result.push(last);
            proof {
                let view = |observation: Counted| (new_last.context(), observation);
                assert(result@.drop_last() =~= before.drop_last());
                assert(counted(new_last.surfaces@) =~= counted(old_last.surfaces@).push(
                    (entry.current_surface@, entry.count),
                ));
                assert(counted(new_last.surfaces@).map_values(view) =~= counted(
                    old_last.surfaces@,
                ).map_values(view).push(all[index as int]));
                assert(flattened(result@) =~= flattened(before).push(all[index as int]));
                assert forall|i: int, j: int| 0 <= i < j < result@.len() implies pair_before(
                    (#[trigger] result@[i]).context(),
                    (#[trigger] result@[j]).context(),
                ) by {
                    assert(pair_before(before[i].context(), before[j].context()));
                }
            }
        } else {
            let mut surfaces: Vec<(String, u32)> = Vec::new();
            surfaces.push((entry.current_surface.clone(), entry.count));
            let group: ContextObservations = ContextObservations {
                previous_surface: entry.previous_surface.clone(),
                reading: entry.previous_reading.as_str().to_owned(),
                surfaces,
            };
            let ghost added = group;
            result.push(group);
            proof {
                let view = |observation: Counted| (added.context(), observation);
                assert(result@.drop_last() =~= before);
                assert(counted(added.surfaces@).map_values(view) =~= seq![all[index as int]]);
                assert(flattened(result@) =~= flattened(before).push(all[index as int]));
                if index > 0 {
                    counts.every_transition_is_listed();
                    assert(transition_before(
                        counts.listed()[index - 1].0,
                        counts.listed()[index as int].0,
                    ));
                    assert(all[index - 1].0 == counts.listed()[index - 1].0.0);
                    assert(pair_before(before.last().context(), added.context()));
                }
                assert forall|i: int, j: int| 0 <= i < j < result@.len() implies pair_before(
                    (#[trigger] result@[i]).context(),
                    (#[trigger] result@[j]).context(),
                ) by {
                    if j < before.len() {
                        assert(pair_before(before[i].context(), before[j].context()));
                    } else if i < before.len() - 1 {
                        pair_order(
                            before[i].context(),
                            before[before.len() - 1].context(),
                            added.context(),
                        );
                    }
                }
            }
        }
    }
    proof {
        ascending_contexts_are_different(result@);
    }
    assert(all.take(all.len() as int) =~= all);
    result
}

// ---------------------------------------------------------------------------
// Judging a context
// ---------------------------------------------------------------------------

/// What a rule needs: so many observations of its surface, so many more than of any other, and
/// such a share of all.
#[derive(Clone, Copy, Debug, PartialEq, Eq, Structural)]
pub struct Thresholds {
    pub minimum_count: u32,
    pub minimum_margin: u32,
    pub minimum_share_basis_points: u16,
    pub maximum_rules: usize,
}

/// The surface that was seen most often; of several the one that comes first.
pub open spec fn winner_before(surfaces: Seq<Counted>, count: int) -> int
    decreases count,
{
    if count <= 1 {
        0
    } else {
        let best = winner_before(surfaces, count - 1);
        let next = surfaces[count - 1];
        if next.1 > surfaces[best].1 || (next.1 == surfaces[best].1 && text_before(
            next.0,
            surfaces[best].0,
        )) {
            count - 1
        } else {
            best
        }
    }
}

/// The greatest count of any surface but the one at `winner`.
pub open spec fn runner_up_before(surfaces: Seq<Counted>, winner: int, count: int) -> u32
    decreases count,
{
    if count <= 0 {
        0
    } else {
        let best = runner_up_before(surfaces, winner, count - 1);
        if count - 1 != winner && surfaces[count - 1].1 > best {
            surfaces[count - 1].1
        } else {
            best
        }
    }
}

/// The sum of the counts, up to the greatest number of 64 bits.
pub open spec fn total_before(surfaces: Seq<Counted>, count: int) -> u64
    decreases count,
{
    if count <= 0 {
        0
    } else {
        crate::corpus_bigram::sum_within(
            total_before(surfaces, count - 1),
            surfaces[count - 1].1 as nat,
        )
    }
}

/// The share of the winner in hundredths of a percent.
pub open spec fn share_of(count: u32, total: u64) -> int {
    if total == 0 {
        0
    } else {
        count as int * 10_000 / total as int
    }
}

/// Why a context gives a rule or not.
#[derive(Clone, Copy, Debug, PartialEq, Eq, Structural)]
pub enum Judgement {
    BelowMinimumCount,
    Tied,
    BelowMinimumMargin,
    BelowMinimumShare,
    PhoneticWinner,
    UnreachableWinner,
    AlreadyTop1,
    Eligible,
}

/// What the observations of a context say: which surface was seen most often, how often, and
/// by how much it leads.
#[derive(Clone, Copy, Debug, PartialEq, Eq, Structural)]
pub struct Standing {
    pub winner: usize,
    pub count: u32,
    pub margin: u32,
    pub share_basis_points: u16,
    pub tied: bool,
}

/// The standing of the observations of a context.
pub open spec fn standing_of(surfaces: Seq<Counted>) -> Standing {
    let winner = winner_before(surfaces, surfaces.len() as int);
    let count = surfaces[winner].1;
    let runner_up = runner_up_before(surfaces, winner, surfaces.len() as int);
    Standing {
        winner: winner as usize,
        count,
        margin: if count >= runner_up {
            (count - runner_up) as u32
        } else {
            0
        },
        share_basis_points: share_of(count, total_before(surfaces, surfaces.len() as int)) as u16,
        tied: count == runner_up,
    }
}

proof fn winner_is_a_surface(surfaces: Seq<Counted>, count: int)
    requires
        0 < count <= surfaces.len(),
    ensures
        0 <= winner_before(surfaces, count) < count,
        forall|i: int|
            0 <= i < count ==> (#[trigger] surfaces[i]).1 <= surfaces[winner_before(
                surfaces,
                count,
            )].1,
    decreases count,
{
    if count > 1 {
        winner_is_a_surface(surfaces, count - 1);
    }
}

proof fn total_is_at_least_each_count(surfaces: Seq<Counted>, index: int, count: int)
    requires
        0 <= index < count <= surfaces.len(),
    ensures
        total_before(surfaces, count) >= surfaces[index].1,
    decreases count,
{
    if index < count - 1 {
        total_is_at_least_each_count(surfaces, index, count - 1);
    }
}

/// No surface was seen more often than the winner, no other as often unless they tie, and the
/// share is at most the whole.
pub proof fn the_winner_was_seen_most_often(surfaces: Seq<Counted>)
    requires
        0 < surfaces.len() <= usize::MAX,
    ensures
        standing_of(surfaces).winner < surfaces.len(),
        standing_of(surfaces).count == surfaces[standing_of(surfaces).winner as int].1,
        forall|i: int|
            0 <= i < surfaces.len() ==> (#[trigger] surfaces[i]).1 <= standing_of(surfaces).count,
        standing_of(surfaces).share_basis_points <= 10_000,
        share_of(
            standing_of(surfaces).count,
            total_before(surfaces, surfaces.len() as int),
        ) <= 10_000,
{
    let length = surfaces.len() as int;
    winner_is_a_surface(surfaces, length);
    let winner = winner_before(surfaces, length);
    total_is_at_least_each_count(surfaces, winner, length);
    let count = surfaces[winner].1 as int;
    let total = total_before(surfaces, length) as int;
    if total > 0 {
        assert(count * 10_000 / total <= 10_000) by (nonlinear_arith)
            requires
                0 <= count <= total,
                total > 0,
        ;
        assert(count * 10_000 / total >= 0) by (nonlinear_arith)
            requires
                0 <= count,
                total > 0,
        ;
    }
}

/// The standing of the observations of a context.
pub fn standing(surfaces: &[(String, u32)]) -> (result: Standing)
    requires
        surfaces@.len() > 0,
    ensures
        result == standing_of(counted(surfaces@)),
        result.winner < surfaces@.len(),
{
    let length: usize = surfaces.len();
    let ghost all = counted(surfaces@);
    let mut winner: usize = 0;
    let mut total: u64 = 0;
    for index in 0..length
        invariant
            length == surfaces@.len(),
            length > 0,
            all == counted(surfaces@),
            winner == winner_before(all, index as int),
            winner < length,
            total == total_before(all, index as int),
    {
        proof {
            if index > 0 {
                winner_is_a_surface(all, index as int);
            }
        }
        assert(all[index as int] == (surfaces@[index as int].0@, surfaces@[index as int].1));
        assert(all[winner as int] == (surfaces@[winner as int].0@, surfaces@[winner as int].1));
        total = total.saturating_add(surfaces[index].1 as u64);
        if index > 0 && (surfaces[index].1 > surfaces[winner].1 || (surfaces[index].1
            == surfaces[winner].1 && place_text(
            surfaces[index].0.as_str(),
            surfaces[winner].0.as_str(),
        ) == Placement::Before)) {
            winner = index;
        }
    }
    proof {
        winner_is_a_surface(all, length as int);
        the_winner_was_seen_most_often(all);
    }
    let mut runner_up: u32 = 0;
    for index in 0..length
        invariant
            length == surfaces@.len(),
            all == counted(surfaces@),
            runner_up == runner_up_before(all, winner as int, index as int),
    {
        if index != winner && surfaces[index].1 > runner_up {
            runner_up = surfaces[index].1;
        }
    }
    let count: u32 = surfaces[winner].1;
    let share: u64 = if total == 0 {
        0
    } else {
        count as u64 * 10_000 / total
    };
    Standing {
        winner,
        count,
        margin: count.saturating_sub(runner_up),
        share_basis_points: share as u16,
        tied: count == runner_up,
    }
}

/// What the observations alone say of a context.
pub open spec fn first_judgement(
    standing: Standing,
    winner: Seq<char>,
    reading: Seq<char>,
    thresholds: Thresholds,
) -> Judgement {
    if standing.count < thresholds.minimum_count {
        Judgement::BelowMinimumCount
    } else if standing.tied {
        Judgement::Tied
    } else if standing.margin < thresholds.minimum_margin {
        Judgement::BelowMinimumMargin
    } else if standing.share_basis_points < thresholds.minimum_share_basis_points {
        Judgement::BelowMinimumShare
    } else if phonetic_reading(winner) == Some(reading) {
        Judgement::PhoneticWinner
    } else {
        Judgement::Eligible
    }
}

/// What the dictionary's candidates for the reading add: the winner has to be one of them and
/// not the first.
pub open spec fn final_judgement(
    first: Judgement,
    winner: Seq<char>,
    candidates: Seq<Seq<char>>,
) -> Judgement {
    if first != Judgement::Eligible {
        first
    } else {
        match first_expected(candidates, seq![winner]) {
            None => Judgement::UnreachableWinner,
            Some(place) => if place == 0 {
                Judgement::AlreadyTop1
            } else {
                Judgement::Eligible
            },
        }
    }
}

/// What the observations alone say of a context. Only for an eligible one candidates are
/// searched.
pub fn judge_observations(group: &ContextObservations, thresholds: Thresholds) -> (result:
    Judgement)
    requires
        group.surfaces@.len() > 0,
    ensures
        ({
            let found = standing_of(counted(group.surfaces@));
            result == first_judgement(
                found,
                counted(group.surfaces@)[found.winner as int].0,
                group.reading@,
                thresholds,
            )
        }),
{
    let found: Standing = standing(group.surfaces.as_slice());
    if found.count < thresholds.minimum_count {
        return Judgement::BelowMinimumCount;
    }
    if found.tied {
        return Judgement::Tied;
    }
    if found.margin < thresholds.minimum_margin {
        return Judgement::BelowMinimumMargin;
    }
    if found.share_basis_points < thresholds.minimum_share_basis_points {
        return Judgement::BelowMinimumShare;
    }
    match normalize_phonetic_reading(group.surfaces[found.winner].0.as_str()) {
        Some(reading) => if same_text(reading.as_str(), group.reading.as_str()) {
            Judgement::PhoneticWinner
        } else {
            Judgement::Eligible
        },
        None => Judgement::Eligible,
    }
}

/// What the candidates say of a winner.
fn judge_candidates(winner: &str, candidates: &[String]) -> (result: Judgement)
    ensures
        result == final_judgement(Judgement::Eligible, winner@, texts(candidates@)),
{
    let mut expected: Vec<String> = Vec::new();
    expected.push(winner.to_owned());
    assert(texts(expected@) =~= seq![winner@]);
    match crate::candidate::position_of_expected(candidates, expected.as_slice()) {
        None => Judgement::UnreachableWinner,
        Some(place) => if place == 0 {
            Judgement::AlreadyTop1
        } else {
            Judgement::Eligible
        },
    }
}

// ---------------------------------------------------------------------------
// Rules
// ---------------------------------------------------------------------------

/// A surface that is preferred for a reading behind another surface.
#[derive(Debug, PartialEq, Eq)]
pub struct Rule {
    pub previous_surface: String,
    pub reading: String,
    pub surface: String,
    pub count: u32,
    pub margin: u32,
    pub share_basis_points: u16,
}

/// The mathematical value of a rule.
pub ghost struct RuleView {
    pub previous_surface: Seq<char>,
    pub reading: Seq<char>,
    pub surface: Seq<char>,
    pub count: u32,
    pub margin: u32,
    pub share_basis_points: u16,
}

impl View for Rule {
    type V = RuleView;

    open spec fn view(&self) -> RuleView {
        RuleView {
            previous_surface: self.previous_surface@,
            reading: self.reading@,
            surface: self.surface@,
            count: self.count,
            margin: self.margin,
            share_basis_points: self.share_basis_points,
        }
    }
}

/// The mathematical values of some rules.
pub open spec fn rule_views(rules: Seq<Rule>) -> Seq<RuleView> {
    Seq::new(rules.len(), |i: int| rules[i]@)
}

/// The order of rules in the output: by reading, then by the surface before, then by surface.
pub open spec fn rule_before(left: RuleView, right: RuleView) -> bool {
    text_before(left.reading, right.reading) || (left.reading == right.reading && (text_before(
        left.previous_surface,
        right.previous_surface,
    ) || (left.previous_surface == right.previous_surface && text_before(
        left.surface,
        right.surface,
    ))))
}

/// The order of rules by strength: the higher count, then the higher margin, then the higher
/// share first; rules that are equal in these as in the output.
pub open spec fn stronger(left: RuleView, right: RuleView) -> bool {
    left.count > right.count || (left.count == right.count && (left.margin > right.margin || (
    left.margin == right.margin && (left.share_basis_points > right.share_basis_points || (
    left.share_basis_points == right.share_basis_points && rule_before(left, right))))))
}

proof fn rule_order(first: RuleView, second: RuleView, third: RuleView)
    ensures
        rule_before(first, second) ==> !rule_before(second, first),
        !rule_before(first, second) && !rule_before(second, third) ==> !rule_before(first, third),
{
    three_texts(first.reading, second.reading, third.reading);
    three_texts(first.previous_surface, second.previous_surface, third.previous_surface);
    three_texts(first.surface, second.surface, third.surface);
}

/// The laws of the order of texts for three of them.
proof fn three_texts(first: Seq<char>, second: Seq<char>, third: Seq<char>)
    ensures
        !text_before(first, first),
        text_before(first, second) ==> !text_before(second, first),
        text_before(first, second) || first == second || text_before(second, first),
        text_before(second, third) || second == third || text_before(third, second),
        text_before(first, third) || first == third || text_before(third, first),
        text_before(first, second) && text_before(second, third) ==> text_before(first, third),
        text_before(third, second) && text_before(second, first) ==> text_before(third, first),
        text_before(second, third) && text_before(third, first) ==> text_before(second, first),
        text_before(first, third) && text_before(third, second) ==> text_before(first, second),
        text_before(second, first) && text_before(first, third) ==> text_before(second, third),
        text_before(third, first) && text_before(first, second) ==> text_before(third, second),
        text_before(first, third) ==> !text_before(third, first),
        text_before(second, third) ==> !text_before(third, second),
{
    text_order_is_irreflexive(first);
    text_order_is_total(first, second);
    text_order_is_total(second, third);
    text_order_is_total(first, third);
    if text_before(first, second) {
        text_order_is_asymmetric(first, second);
    }
    if text_before(first, third) {
        text_order_is_asymmetric(first, third);
    }
    if text_before(second, third) {
        text_order_is_asymmetric(second, third);
    }
    if text_before(first, second) && text_before(second, third) {
        text_order_is_transitive(first, second, third);
    }
    if text_before(third, second) && text_before(second, first) {
        text_order_is_transitive(third, second, first);
    }
    if text_before(second, third) && text_before(third, first) {
        text_order_is_transitive(second, third, first);
    }
    if text_before(first, third) && text_before(third, second) {
        text_order_is_transitive(first, third, second);
    }
    if text_before(second, first) && text_before(first, third) {
        text_order_is_transitive(second, first, third);
    }
    if text_before(third, first) && text_before(first, second) {
        text_order_is_transitive(third, first, second);
    }
}

/// Where one rule stands to another in the output.
fn place_rule(left: &Rule, right: &Rule) -> (result: bool)
    ensures
        result == rule_before(left@, right@),
{
    match place_text(left.reading.as_str(), right.reading.as_str()) {
        Placement::Before => true,
        Placement::After => {
            proof {
                three_texts(left.reading@, right.reading@, right.reading@);
            }
            false
        },
        Placement::Same => {
            proof {
                three_texts(left.reading@, right.reading@, right.reading@);
                three_texts(
                    left.previous_surface@,
                    right.previous_surface@,
                    right.previous_surface@,
                );
            }
            match place_text(left.previous_surface.as_str(), right.previous_surface.as_str()) {
                Placement::Before => true,
                Placement::After => false,
                Placement::Same => place_text(left.surface.as_str(), right.surface.as_str())
                    == Placement::Before,
            }
        },
    }
}

/// Rules rank as they stand in the output.
impl Ranked for Rule {
    open spec fn ranks_before(&self, other: &Self) -> bool {
        rule_before(self@, other@)
    }

    proof fn ranking_laws(first: &Self, second: &Self, third: &Self) {
        rule_order(first@, second@, third@);
    }

    fn comes_before(&self, other: &Self) -> (result: bool) {
        place_rule(self, other)
    }
}

/// A rule that ranks by its strength.
#[derive(Debug, PartialEq, Eq)]
pub struct RuleByStrength {
    pub rule: Rule,
}

impl Ranked for RuleByStrength {
    open spec fn ranks_before(&self, other: &Self) -> bool {
        stronger(self.rule@, other.rule@)
    }

    proof fn ranking_laws(first: &Self, second: &Self, third: &Self) {
        rule_order(first.rule@, second.rule@, third.rule@);
    }

    fn comes_before(&self, other: &Self) -> (result: bool) {
        let left: &Rule = &self.rule;
        let right: &Rule = &other.rule;
        left.count > right.count || (left.count == right.count && (left.margin > right.margin || (
        left.margin == right.margin && (left.share_basis_points > right.share_basis_points || (
        left.share_basis_points == right.share_basis_points && place_rule(left, right))))))
    }
}

/// What became of the contexts: the rules, and the judgement of each context.
#[derive(Debug)]
pub struct Selection {
    pub rules: Vec<Rule>,
    pub judgements: Vec<Judgement>,
    pub eligible_rules: usize,
    pub truncated_rules: usize,
}

/// The judgement of a context.
pub open spec fn judgement_of(
    group: ContextObservations,
    candidates: Seq<Seq<char>>,
    thresholds: Thresholds,
) -> Judgement {
    let surfaces = counted(group.surfaces@);
    let found = standing_of(surfaces);
    let winner = surfaces[found.winner as int].0;
    final_judgement(
        first_judgement(found, winner, group.reading@, thresholds),
        winner,
        candidates,
    )
}

/// The rule that a context gives.
pub open spec fn rule_of(group: ContextObservations) -> RuleView {
    let surfaces = counted(group.surfaces@);
    let found = standing_of(surfaces);
    RuleView {
        previous_surface: group.previous_surface@,
        reading: group.reading@,
        surface: surfaces[found.winner as int].0,
        count: found.count,
        margin: found.margin,
        share_basis_points: found.share_basis_points,
    }
}

/// The rules that the first `count` contexts give, in the order of the contexts.
pub open spec fn eligible_before(
    groups: Seq<ContextObservations>,
    candidates: Seq<Vec<String>>,
    thresholds: Thresholds,
    count: int,
) -> Seq<RuleView>
    decreases count,
{
    if count <= 0 {
        Seq::empty()
    } else {
        let before = eligible_before(groups, candidates, thresholds, count - 1);
        if judgement_of(groups[count - 1], texts(candidates[count - 1]@), thresholds)
            == Judgement::Eligible {
            before.push(rule_of(groups[count - 1]))
        } else {
            before
        }
    }
}

/// The readings of those of the first `count` contexts for which candidates are searched.
pub open spec fn searched_readings(
    groups: Seq<ContextObservations>,
    thresholds: Thresholds,
    count: int,
) -> Set<Seq<char>>
    decreases count,
{
    if count <= 0 {
        Set::empty()
    } else {
        let before = searched_readings(groups, thresholds, count - 1);
        let surfaces = counted(groups[count - 1].surfaces@);
        let found = standing_of(surfaces);
        if first_judgement(
            found,
            surfaces[found.winner as int].0,
            groups[count - 1].reading@,
            thresholds,
        ) == Judgement::Eligible {
            before.insert(groups[count - 1].reading@)
        } else {
            before
        }
    }
}

/// Whether `kept` are the strongest of the rules, at most `maximum`, in the order of the
/// output.
pub open spec fn is_strongest_selection(
    kept: Seq<Rule>,
    eligible: Seq<RuleView>,
    maximum: int,
) -> bool {
    exists|ranked: Seq<RuleByStrength>| #[trigger]
        is_ranked(ranked) && {
            &&& by_strength_views(ranked).to_multiset() == eligible.to_multiset()
            &&& rule_views(kept).to_multiset() == by_strength_views(ranked).take(
                if ranked.len() <= maximum {
                    ranked.len() as int
                } else {
                    maximum
                },
            ).to_multiset()
        } && is_ranked(kept)
}

/// The mathematical values of some rules by strength.
pub open spec fn by_strength_views(rules: Seq<RuleByStrength>) -> Seq<RuleView> {
    Seq::new(rules.len(), |i: int| rules[i].rule@)
}

/// The message on a corpus with too many readings.
pub open spec fn too_many_readings() -> Seq<char> {
    "training corpus exceeds the "@ + decimal(MAX_UNIQUE_READINGS as nat)
        + " candidate-reading limit"@
}

/// What the contexts give: their judgements and the eligible rules.
#[verifier::rlimit(60)]
#[verifier::spinoff_prover]
fn eligible_rules(
    groups: &[ContextObservations],
    candidates: &[Vec<String>],
    thresholds: Thresholds,
) -> (result: Result<(Vec<RuleByStrength>, Vec<Judgement>), String>)
    requires
        candidates@.len() == groups@.len(),
        are_separate(groups@),
    ensures
        result is Ok <==> searched_readings(groups@, thresholds, groups@.len() as int).len()
            <= MAX_UNIQUE_READINGS,
        result matches Err(error) ==> error@ == too_many_readings(),
        result matches Ok(found) ==> {
            &&& by_strength_views(found.0@) == eligible_before(
                groups@,
                candidates@,
                thresholds,
                groups@.len() as int,
            )
            &&& found.1@.len() == groups@.len()
            &&& forall|i: int|
                0 <= i < groups@.len() ==> #[trigger] found.1@[i] == judgement_of(
                    groups@[i],
                    texts(candidates@[i]@),
                    thresholds,
                )
        },
{
    let mut rules: Vec<RuleByStrength> = Vec::new();
    let mut judgements: Vec<Judgement> = Vec::new();
    let mut readings: TextSet = TextSet::new();
    assert(by_strength_views(rules@) =~= Seq::<RuleView>::empty());
    for index in 0..groups.len()
        invariant
            candidates@.len() == groups@.len(),
            are_separate(groups@),
            readings.well_formed(),
            readings@ == searched_readings(groups@, thresholds, index as int),
            readings@.finite(),
            readings@.len() <= MAX_UNIQUE_READINGS,
            by_strength_views(rules@) == eligible_before(
                groups@,
                candidates@,
                thresholds,
                index as int,
            ),
            judgements@.len() == index,
            forall|i: int|
                0 <= i < index ==> #[trigger] judgements@[i] == judgement_of(
                    groups@[i],
                    texts(candidates@[i]@),
                    thresholds,
                ),
    {
        let group: &ContextObservations = &groups[index];
        let found: Standing = standing(group.surfaces.as_slice());
        let winner: &str = group.surfaces[found.winner].0.as_str();
        assert(counted(group.surfaces@)[found.winner as int].0 == winner@);
        let mut judgement: Judgement = judge_observations(group, thresholds);
        if judgement == Judgement::Eligible {
            let ghost known = readings@;
            let added: bool = readings.insert(group.reading.as_str());
            proof {
                searched_readings_grow(groups@, thresholds, index + 1, groups@.len() as int);
            }
            if readings.len() > MAX_UNIQUE_READINGS {
                let limit: String = count_text(MAX_UNIQUE_READINGS);
                let start: String = joined("training corpus exceeds the ", limit.as_str());
                return Err(joined(start.as_str(), " candidate-reading limit"));
            }
            judgement = judge_candidates(winner, candidates[index].as_slice());
        }
        let ghost before = by_strength_views(rules@);
        if judgement == Judgement::Eligible {
            let rule: Rule = Rule {
                previous_surface: group.previous_surface.clone(),
                reading: group.reading.clone(),
                surface: winner.to_owned(),
                count: found.count,
                margin: found.margin,
                share_basis_points: found.share_basis_points,
            };
            let ghost view = rule@;
            rules.push(RuleByStrength { rule });
            assert(by_strength_views(rules@) =~= before.push(view));
        }
        judgements.push(judgement);
    }
    Ok((rules, judgements))
}

proof fn searched_readings_grow(
    groups: Seq<ContextObservations>,
    thresholds: Thresholds,
    low: int,
    high: int,
)
    requires
        0 <= low <= high,
    ensures
        searched_readings(groups, thresholds, low).finite(),
        searched_readings(groups, thresholds, high).finite(),
        searched_readings(groups, thresholds, low).len() <= searched_readings(
            groups,
            thresholds,
            high,
        ).len(),
    decreases high,
{
    if low < high {
        searched_readings_grow(groups, thresholds, low, high - 1);
    } else if high > 0 {
        searched_readings_grow(groups, thresholds, low - 1, high - 1);
    }
}

/// Takes the rules that the observations and the candidates of each context's reading give.
/// Only the strongest are kept.
pub fn select_rules(
    groups: &[ContextObservations],
    candidates: &[Vec<String>],
    thresholds: Thresholds,
) -> (result: Result<Selection, String>)
    requires
        candidates@.len() == groups@.len(),
        are_separate(groups@),
    ensures
        result is Ok <==> searched_readings(groups@, thresholds, groups@.len() as int).len()
            <= MAX_UNIQUE_READINGS,
        result matches Err(error) ==> error@ == too_many_readings(),
        result matches Ok(selection) ==> {
            let eligible = eligible_before(
                groups@,
                candidates@,
                thresholds,
                groups@.len() as int,
            );
            &&& is_strongest_selection(
                selection.rules@,
                eligible,
                thresholds.maximum_rules as int,
            )
            &&& selection.eligible_rules == eligible.len()
            &&& selection.truncated_rules == (if eligible.len() > thresholds.maximum_rules {
                eligible.len() - thresholds.maximum_rules
            } else {
                0
            })
            &&& selection.rules@.len() == eligible.len() - selection.truncated_rules
            &&& forall|i: int, j: int|
                0 <= i < j < selection.rules@.len() ==> rule_before(
                    (#[trigger] selection.rules@[i])@,
                    (#[trigger] selection.rules@[j])@,
                )
            &&& selection.judgements@.len() == groups@.len()
            &&& forall|i: int|
                0 <= i < groups@.len() ==> #[trigger] selection.judgements@[i] == judgement_of(
                    groups@[i],
                    texts(candidates@[i]@),
                    thresholds,
                )
        },
{
    let (rules, judgements) = match eligible_rules(groups, candidates, thresholds) {
        Ok(found) => found,
        Err(error) => return Err(error),
    };
    let eligible_rules: usize = rules.len();
    let ghost eligible = by_strength_views(rules@);
    let ghost unsorted = rules@;
    let truncated_rules: usize = eligible_rules.saturating_sub(thresholds.maximum_rules);
    let ranked: Vec<RuleByStrength> = sorted(rules);
    let ghost all = ranked@;
    proof {
        views_keep_the_multiset(unsorted, all);
    }
    let keep: usize = eligible_rules - truncated_rules;
    let mut kept: Vec<Rule> = Vec::new();
    let mut rest: Vec<RuleByStrength> = ranked;
    assert(rule_views(kept@) =~= Seq::<RuleView>::empty());
    rest.truncate(keep);
    let ghost cut = rest@;
    let ghost strongest = by_strength_views(all).take(keep as int);
    assert(by_strength_views(cut) =~= strongest);
    assert(rule_views(kept@).to_multiset().add(by_strength_views(rest@).to_multiset())
        =~= strongest.to_multiset());
    while rest.len() > 0
        invariant
            rule_views(kept@).to_multiset().add(by_strength_views(rest@).to_multiset())
                == strongest.to_multiset(),
        decreases rest@.len(),
    {
        let ghost before = by_strength_views(rest@);
        let ghost taken = rule_views(kept@);
        let last: RuleByStrength = rest.pop().unwrap();
        assert(before =~= by_strength_views(rest@).push(last.rule@));
        let ghost view = last.rule@;
        kept.push(last.rule);
        assert(rule_views(kept@) =~= taken.push(view));
        assert(rule_views(kept@).to_multiset().add(by_strength_views(rest@).to_multiset())
            =~= strongest.to_multiset());
    }
    assert(by_strength_views(rest@) =~= Seq::<RuleView>::empty());
    assert(rule_views(kept@).to_multiset() =~= strongest.to_multiset());
    let ghost loose = kept@;
    let rules: Vec<Rule> = sorted(kept);
    proof {
        rule_views_keep_the_multiset(loose, rules@);
        assert(rule_views(rules@).len() == rule_views(rules@).to_multiset().len());
        assert(strongest.len() == strongest.to_multiset().len());
        assert(is_ranked(all));
        assert(keep == (if all.len() <= thresholds.maximum_rules {
            all.len() as int
        } else {
            thresholds.maximum_rules as int
        }));
        assert(is_strongest_selection(rules@, eligible, thresholds.maximum_rules as int));
        kept_rules_strictly_ascend(groups@, candidates@, thresholds, rules@);
    }
    Ok(Selection { rules, judgements, eligible_rules, truncated_rules })
}

proof fn views_keep_the_multiset(left: Seq<RuleByStrength>, right: Seq<RuleByStrength>)
    requires
        left.to_multiset() == right.to_multiset(),
    ensures
        by_strength_views(left).to_multiset() == by_strength_views(right).to_multiset(),
        left.len() == right.len(),
    decreases left.len(),
{
    assert(left.len() == left.to_multiset().len());
    assert(right.len() == right.to_multiset().len());
    if left.len() > 0 {
        let item = left.last();
        assert(left.to_multiset().contains(item)) by {
            assert(left.contains(item));
        }
        assert(right.contains(item));
        let place = choose|i: int| 0 <= i < right.len() && right[i] == item;
        let rest = right.remove(place);
        assert(left =~= left.drop_last().push(item));
        assert(right.to_multiset() =~= rest.to_multiset().insert(item));
        assert(left.drop_last().to_multiset() =~= rest.to_multiset());
        views_keep_the_multiset(left.drop_last(), rest);
        assert(by_strength_views(left) =~= by_strength_views(left.drop_last()).push(item.rule@));
        assert(by_strength_views(rest) =~= by_strength_views(right).remove(place));
        assert(by_strength_views(right).to_multiset() =~= by_strength_views(
            rest,
        ).to_multiset().insert(item.rule@));
    } else {
        assert(by_strength_views(left) =~= by_strength_views(right));
    }
}

proof fn rule_views_keep_the_multiset(left: Seq<Rule>, right: Seq<Rule>)
    requires
        left.to_multiset() == right.to_multiset(),
    ensures
        rule_views(left).to_multiset() == rule_views(right).to_multiset(),
        left.len() == right.len(),
    decreases left.len(),
{
    assert(left.len() == left.to_multiset().len());
    assert(right.len() == right.to_multiset().len());
    if left.len() > 0 {
        let item = left.last();
        assert(left.to_multiset().contains(item)) by {
            assert(left.contains(item));
        }
        assert(right.contains(item));
        let place = choose|i: int| 0 <= i < right.len() && right[i] == item;
        let rest = right.remove(place);
        assert(left =~= left.drop_last().push(item));
        assert(right.to_multiset() =~= rest.to_multiset().insert(item));
        assert(left.drop_last().to_multiset() =~= rest.to_multiset());
        rule_views_keep_the_multiset(left.drop_last(), rest);
        assert(rule_views(left) =~= rule_views(left.drop_last()).push(item@));
        assert(rule_views(rest) =~= rule_views(right).remove(place));
        assert(rule_views(right).to_multiset() =~= rule_views(rest).to_multiset().insert(item@));
    } else {
        assert(rule_views(left) =~= rule_views(right));
    }
}

/// The number of contexts with this judgement.
pub open spec fn count_judgements(judgements: Seq<Judgement>, kind: Judgement) -> nat
    decreases judgements.len(),
{
    if judgements.len() == 0 {
        0
    } else {
        count_judgements(judgements.drop_last(), kind) + (if judgements.last() == kind {
            1nat
        } else {
            0
        })
    }
}

proof fn judgement_counts_are_bounded(judgements: Seq<Judgement>, kind: Judgement)
    ensures
        count_judgements(judgements, kind) <= judgements.len(),
    decreases judgements.len(),
{
    if judgements.len() > 0 {
        judgement_counts_are_bounded(judgements.drop_last(), kind);
    }
}

/// Every context has exactly one judgement.
pub proof fn the_judgements_make_up_the_contexts(judgements: Seq<Judgement>)
    ensures
        count_judgements(judgements, Judgement::BelowMinimumCount) + count_judgements(
            judgements,
            Judgement::Tied,
        ) + count_judgements(judgements, Judgement::BelowMinimumMargin) + count_judgements(
            judgements,
            Judgement::BelowMinimumShare,
        ) + count_judgements(judgements, Judgement::PhoneticWinner) + count_judgements(
            judgements,
            Judgement::UnreachableWinner,
        ) + count_judgements(judgements, Judgement::AlreadyTop1) + count_judgements(
            judgements,
            Judgement::Eligible,
        ) == judgements.len(),
    decreases judgements.len(),
{
    if judgements.len() > 0 {
        the_judgements_make_up_the_contexts(judgements.drop_last());
    }
}

/// The judgements of the first `count` contexts.
pub open spec fn judgements_before(
    groups: Seq<ContextObservations>,
    candidates: Seq<Vec<String>>,
    thresholds: Thresholds,
    count: int,
) -> Seq<Judgement> {
    Seq::new(
        count as nat,
        |i: int| judgement_of(groups[i], texts(candidates[i]@), thresholds),
    )
}

/// There are as many eligible rules as contexts that were judged eligible.
pub proof fn eligible_contexts_give_the_rules(
    groups: Seq<ContextObservations>,
    candidates: Seq<Vec<String>>,
    thresholds: Thresholds,
    count: int,
)
    requires
        0 <= count,
    ensures
        eligible_before(groups, candidates, thresholds, count).len() == count_judgements(
            judgements_before(groups, candidates, thresholds, count),
            Judgement::Eligible,
        ),
    decreases count,
{
    if count > 0 {
        eligible_contexts_give_the_rules(groups, candidates, thresholds, count - 1);
        assert(judgements_before(groups, candidates, thresholds, count).drop_last()
            =~= judgements_before(groups, candidates, thresholds, count - 1));
    }
}

/// Each eligible rule is that of one context, and later contexts give later rules.
proof fn eligible_rules_have_contexts(
    groups: Seq<ContextObservations>,
    candidates: Seq<Vec<String>>,
    thresholds: Thresholds,
    count: int,
)
    requires
        are_separate(groups),
        0 <= count <= groups.len(),
    ensures
        forall|i: int|
            0 <= i < eligible_before(groups, candidates, thresholds, count).len() ==> has_context(
                groups,
                #[trigger] eligible_before(groups, candidates, thresholds, count)[i],
                count,
            ),
        forall|i: int, j: int|
            0 <= i < j < eligible_before(groups, candidates, thresholds, count).len()
                ==> context_of(
                #[trigger] eligible_before(groups, candidates, thresholds, count)[i],
            ) != context_of(
                #[trigger] eligible_before(groups, candidates, thresholds, count)[j],
            ),
    decreases count,
{
    if count > 0 {
        eligible_rules_have_contexts(groups, candidates, thresholds, count - 1);
        let before = eligible_before(groups, candidates, thresholds, count - 1);
        let after = eligible_before(groups, candidates, thresholds, count);
        let last = groups[count - 1];
        assert(context_of(rule_of(last)) == last.context());
        assert forall|i: int| 0 <= i < after.len() implies has_context(
            groups,
            #[trigger] after[i],
            count,
        ) by {
            if i < before.len() {
                assert(has_context(groups, before[i], count - 1));
                let k = choose|k: int|
                    0 <= k < count - 1 && (#[trigger] groups[k]).context() == context_of(before[i]);
                assert(groups[k].context() == context_of(after[i]));
            } else {
                assert(groups[count - 1].context() == context_of(after[i]));
            }
        }
        assert forall|i: int, j: int| 0 <= i < j < after.len() implies context_of(
            #[trigger] after[i],
        ) != context_of(#[trigger] after[j]) by {
            if j < before.len() {
                assert(context_of(before[i]) != context_of(before[j]));
            } else {
                assert(has_context(groups, before[i], count - 1));
                let k = choose|k: int|
                    0 <= k < count - 1 && (#[trigger] groups[k]).context() == context_of(before[i]);
                assert(groups[k].context() != groups[count - 1].context());
            }
        }
    }
}

/// The context in which a rule applies.
pub open spec fn context_of(rule: RuleView) -> TextPair {
    (rule.previous_surface, rule.reading)
}

/// Whether one of the first `count` contexts is that of the rule.
spec fn has_context(groups: Seq<ContextObservations>, rule: RuleView, count: int) -> bool {
    exists|k: int| 0 <= k < count && (#[trigger] groups[k]).context() == context_of(rule)
}

/// The rules that are kept stand strictly in the order of the output: no two of them apply in the
/// same context.
pub proof fn kept_rules_strictly_ascend(
    groups: Seq<ContextObservations>,
    candidates: Seq<Vec<String>>,
    thresholds: Thresholds,
    kept: Seq<Rule>,
)
    requires
        are_separate(groups),
        is_strongest_selection(
            kept,
            eligible_before(groups, candidates, thresholds, groups.len() as int),
            thresholds.maximum_rules as int,
        ),
    ensures
        forall|i: int, j: int|
            0 <= i < j < kept.len() ==> rule_before((#[trigger] kept[i])@, (#[trigger] kept[j])@)
                && context_of(kept[i]@) != context_of(kept[j]@),
{
    let count = groups.len() as int;
    let eligible = eligible_before(groups, candidates, thresholds, count);
    let maximum = thresholds.maximum_rules as int;
    eligible_rules_have_contexts(groups, candidates, thresholds, count);
    let ranked = choose|ranked: Seq<RuleByStrength>| #[trigger]
        is_ranked(ranked) && {
            &&& by_strength_views(ranked).to_multiset() == eligible.to_multiset()
            &&& rule_views(kept).to_multiset() == by_strength_views(ranked).take(
                if ranked.len() <= maximum {
                    ranked.len() as int
                } else {
                    maximum
                },
            ).to_multiset()
        } && is_ranked(kept);
    let all = by_strength_views(ranked);
    let cut: int = if ranked.len() <= maximum {
        ranked.len() as int
    } else {
        maximum
    };
    let views = rule_views(kept);
    assert(all.take(cut) + all.skip(cut) =~= all);
    lemma_multiset_commutative(all.take(cut), all.skip(cut));
    assert(eligible.no_duplicates()) by {
        assert forall|i: int, j: int| 0 <= i < eligible.len() && 0 <= j < eligible.len() && i
            != j implies eligible[i] != eligible[j] by {
            if i < j {
                assert(context_of(eligible[i]) != context_of(eligible[j]));
            } else {
                assert(context_of(eligible[j]) != context_of(eligible[i]));
            }
        }
    }
    eligible.lemma_multiset_has_no_duplicates();
    assert forall|i: int, j: int| 0 <= i < j < kept.len() implies rule_before(
        (#[trigger] kept[i])@,
        (#[trigger] kept[j])@,
    ) && context_of(kept[i]@) != context_of(kept[j]@) by {
        let left = views[i];
        let right = views[j];
        assert(views.to_multiset().count(left) > 0) by {
            assert(views.contains(left));
        }
        assert(views.to_multiset().count(right) > 0) by {
            assert(views.contains(right));
        }
        assert(eligible.to_multiset().count(left) > 0);
        assert(eligible.to_multiset().count(right) > 0);
        assert(eligible.contains(left) && eligible.contains(right));
        let x = choose|x: int| 0 <= x < eligible.len() && eligible[x] == left;
        let y = choose|y: int| 0 <= y < eligible.len() && eligible[y] == right;
        if context_of(left) == context_of(right) {
            if x < y {
                assert(context_of(eligible[x]) != context_of(eligible[y]));
            } else if y < x {
                assert(context_of(eligible[y]) != context_of(eligible[x]));
            }
            assert(left == right);
            let without = views.remove(j);
            assert(without[i] == left);
            assert(without.contains(left));
            assert(views.to_multiset() =~= without.to_multiset().insert(right));
            assert(views.to_multiset().count(left) >= 2);
            assert(eligible.to_multiset().contains(left));
            assert(eligible.to_multiset().count(left) == 1);
        }
        assert(!kept[j].ranks_before(&kept[i]));
        three_texts(left.reading, right.reading, right.reading);
        three_texts(left.previous_surface, right.previous_surface, right.previous_surface);
    }
}

pub fn number_of_judgements(judgements: &[Judgement], kind: Judgement) -> (result: usize)
    ensures
        result == count_judgements(judgements@, kind),
{
    let mut result: usize = 0;
    for index in 0..judgements.len()
        invariant
            result == count_judgements(judgements@.take(index as int), kind),
    {
        proof {
            assert(judgements@.take(index + 1).drop_last() =~= judgements@.take(index as int));
            judgement_counts_are_bounded(judgements@.take(index + 1), kind);
        }
        if judgements[index] == kind {
            result += 1;
        }
    }
    assert(judgements@.take(judgements@.len() as int) =~= judgements@);
    result
}

/// The line of a rule in the output.
pub open spec fn rule_line(rule: RuleView) -> Seq<char> {
    rule.previous_surface + "\t"@ + rule.reading + "\t"@ + rule.surface + "\t0\n"@
}

/// The lines of the rules.
pub open spec fn rule_lines(rules: Seq<RuleView>) -> Seq<char>
    decreases rules.len(),
{
    if rules.len() == 0 {
        Seq::empty()
    } else {
        rule_lines(rules.drop_last()) + rule_line(rules.last())
    }
}

/// The rules as a table, one line for each.
pub fn serialize_rules(rules: &[Rule]) -> (result: String)
    ensures
        result@ == rule_lines(rule_views(rules@)),
{
    let ghost all = rule_views(rules@);
    let mut output: String = String::new();
    assert(all.take(0) =~= Seq::<RuleView>::empty());
    for index in 0..rules.len()
        invariant
            all == rule_views(rules@),
            output@ == rule_lines(all.take(index as int)),
    {
        assert(all.take(index + 1).drop_last() =~= all.take(index as int));
        assert(all.take(index + 1).last() == rules@[index as int]@);
        let ghost before = output@;
        output.append(rules[index].previous_surface.as_str());
        output.append("\t");
        output.append(rules[index].reading.as_str());
        output.append("\t");
        output.append(rules[index].surface.as_str());
        output.append("\t0\n");
        assert(output@ =~= before + rule_line(rules@[index as int]@));
    }
    assert(all.take(all.len() as int) =~= all);
    output
}

/// The rules as a table. There must be a rule.
pub fn output_of_rules(rules: &[Rule]) -> (result: Result<String, String>)
    ensures
        result is Ok <==> rules@.len() > 0,
        result matches Ok(output) ==> output@ == rule_lines(rule_views(rules@)),
        result matches Err(problem) ==> problem@
            == "training inputs produced no eligible context rules"@,
{
    if rules.len() == 0 {
        return Err("training inputs produced no eligible context rules".to_owned());
    }
    Ok(serialize_rules(rules))
}

// ---------------------------------------------------------------------------
// What is observed and judged
// ---------------------------------------------------------------------------

/// What a line shows: behind each surface that can be a context the surface of the next token, with
/// the next token's reading, if that is phonetic.
pub open spec fn shown_by(tokens: Seq<TextPair>, count: int) -> Seq<Transition>
    decreases count,
{
    if count <= 1 {
        Seq::empty()
    } else {
        let before = shown_by(tokens, count - 1);
        let (previous, current) = (tokens[count - 2], tokens[count - 1]);
        if phonetic_reading(current.1) is Some && is_context_surface(previous.0) {
            before.push(((previous.0, phonetic_reading(current.1)->0), (current.0, ""@)))
        } else {
            before
        }
    }
}

/// A line counts what it shows, one token behind the other: each observation once, and every other
/// pair of neighbours as skipped.
pub proof fn neighbours_are_observed(view: ObservationView, tokens: Seq<TextPair>, count: int)
    requires
        0 <= count <= tokens.len(),
        with_pairs(view, tokens, count) is Ok,
    ensures
        ({
            let after = with_pairs(view, tokens, count)->Ok_0;
            let shown = shown_by(tokens, count);
            let pairs = if count <= 1 {
                0
            } else {
                count - 1
            };
            &&& after.counts == crate::corpus_bigram::all_incremented(view.counts, shown)
            &&& shown.len() <= pairs
            &&& after.observations == more(view.observations, shown.len())
            &&& after.skipped_non_phonetic == more(
                view.skipped_non_phonetic,
                (pairs - shown.len()) as nat,
            )
            &&& after.seen == view.seen && after.lines == view.lines && after.tokens == view.tokens
        }),
    decreases count,
{
    if count > 1 {
        neighbours_are_observed(view, tokens, count - 1);
        let before = shown_by(tokens, count - 1);
        let shown = shown_by(tokens, count);
        if shown.len() > before.len() {
            assert(shown.drop_last() =~= before);
        }
    }
}

/// The surface that is preferred was seen most often, and of those seen as often it is the first in
/// the order of texts. Its margin is what it has over the next best, it ties if another was seen as
/// often, and its share is its part of all in hundredths of a percent.
pub proof fn the_standing_compares_the_counts(surfaces: Seq<Counted>)
    requires
        0 < surfaces.len() <= usize::MAX,
        sum_of_counts(surfaces, surfaces.len() as int) <= u64::MAX,
    ensures
        ({
            let found = standing_of(surfaces);
            let winner = found.winner as int;
            &&& 0 <= winner < surfaces.len()
            &&& forall|i: int|
                0 <= i < surfaces.len() ==> (#[trigger] surfaces[i]).1 < found.count || (
                surfaces[i].1 == found.count && !text_before(surfaces[i].0, surfaces[winner].0))
            &&& found.tied <==> found.count == 0 || exists|i: int|
                0 <= i < surfaces.len() && i != winner && (#[trigger] surfaces[i]).1 == found.count
            &&& forall|i: int|
                0 <= i < surfaces.len() && i != winner ==> found.count - (#[trigger] surfaces[i]).1
                    >= found.margin
            &&& found.margin < found.count ==> exists|i: int|
                0 <= i < surfaces.len() && i != winner && found.count - (#[trigger] surfaces[i]).1
                    == found.margin
            &&& found.count > 0 ==> {
                let all = sum_of_counts(surfaces, surfaces.len() as int);
                found.share_basis_points * all <= found.count * 10_000 < (found.share_basis_points
                    + 1) * all
            }
        }),
{
    the_winner_was_seen_most_often(surfaces);
    let length = surfaces.len() as int;
    let winner = winner_before(surfaces, length);
    the_winner_is_the_first_of_the_best(surfaces, length);
    the_runner_up_is_the_next_best(surfaces, winner, length);
    totals_are_sums(surfaces, length);
    let found = standing_of(surfaces);
    let best = runner_up_before(surfaces, winner, length);
    assert(best <= found.count) by {
        if best > 0 {
            let i = choose|i: int|
                0 <= i < length && i != winner && (#[trigger] surfaces[i]).1 == best;
            assert(surfaces[i].1 <= found.count);
        }
    }
    assert(found.winner == winner);
    if found.tied && found.count > 0 {
        let i = choose|i: int| 0 <= i < length && i != winner && (#[trigger] surfaces[i]).1 == best;
        assert(surfaces[i].1 == found.count);
    }
    if found.margin < found.count {
        let i = choose|i: int| 0 <= i < length && i != winner && (#[trigger] surfaces[i]).1 == best;
        assert(found.count - surfaces[i].1 == found.margin);
    }
    if found.count > 0 {
        let all = sum_of_counts(surfaces, length);
        counts_are_part_of_the_sum(surfaces, winner, length);
        let share = share_of(found.count, all as u64);
        assert(share * all <= found.count * 10_000 < (share + 1) * all) by (nonlinear_arith)
            requires
                share == found.count as int * 10_000 / all as int,
                all > 0,
        ;
    }
}

/// The sum of the first `count` counts.
pub open spec fn sum_of_counts(surfaces: Seq<Counted>, count: int) -> nat
    decreases count,
{
    if count <= 0 {
        0
    } else {
        sum_of_counts(surfaces, count - 1) + surfaces[count - 1].1 as nat
    }
}

proof fn totals_are_sums(surfaces: Seq<Counted>, count: int)
    requires
        0 <= count <= surfaces.len(),
        sum_of_counts(surfaces, count) <= u64::MAX,
    ensures
        total_before(surfaces, count) == sum_of_counts(surfaces, count),
    decreases count,
{
    if count > 0 {
        totals_are_sums(surfaces, count - 1);
    }
}

proof fn counts_are_part_of_the_sum(surfaces: Seq<Counted>, index: int, count: int)
    requires
        0 <= index < count <= surfaces.len(),
    ensures
        surfaces[index].1 <= sum_of_counts(surfaces, count),
    decreases count,
{
    if index < count - 1 {
        counts_are_part_of_the_sum(surfaces, index, count - 1);
    }
}

proof fn the_winner_is_the_first_of_the_best(surfaces: Seq<Counted>, count: int)
    requires
        0 < count <= surfaces.len(),
    ensures
        ({
            let winner = winner_before(surfaces, count);
            &&& 0 <= winner < count
            &&& forall|i: int|
                0 <= i < count ==> (#[trigger] surfaces[i]).1 < surfaces[winner].1 || (surfaces[i].1
                    == surfaces[winner].1 && !text_before(surfaces[i].0, surfaces[winner].0))
        }),
    decreases count,
{
    if count > 1 {
        the_winner_is_the_first_of_the_best(surfaces, count - 1);
        let best = winner_before(surfaces, count - 1);
        let winner = winner_before(surfaces, count);
        let next = surfaces[count - 1];
        assert forall|i: int| 0 <= i < count implies (#[trigger] surfaces[i]).1 < surfaces[winner].1
            || (surfaces[i].1 == surfaces[winner].1 && !text_before(
            surfaces[i].0,
            surfaces[winner].0,
        )) by {
            three_texts(surfaces[i].0, surfaces[best].0, next.0);
            three_texts(next.0, surfaces[best].0, surfaces[i].0);
            three_texts(next.0, next.0, next.0);
            if winner == count - 1 && i < count - 1 && surfaces[i].1 == next.1 {
                if text_before(surfaces[i].0, next.0) && surfaces[best].1 == next.1 {
                    text_order_is_transitive(surfaces[i].0, next.0, surfaces[best].0);
                }
            }
        }
    } else {
        three_texts(surfaces[0].0, surfaces[0].0, surfaces[0].0);
    }
}

proof fn the_runner_up_is_the_next_best(surfaces: Seq<Counted>, winner: int, count: int)
    requires
        0 <= count <= surfaces.len(),
    ensures
        ({
            let best = runner_up_before(surfaces, winner, count);
            &&& forall|i: int|
                0 <= i < count && i != winner ==> (#[trigger] surfaces[i]).1 <= best
            &&& best > 0 ==> exists|i: int|
                0 <= i < count && i != winner && (#[trigger] surfaces[i]).1 == best
        }),
    decreases count,
{
    if count > 0 {
        the_runner_up_is_the_next_best(surfaces, winner, count - 1);
        let before = runner_up_before(surfaces, winner, count - 1);
        if count - 1 != winner && surfaces[count - 1].1 > before {
            assert(surfaces[count - 1].1 == runner_up_before(surfaces, winner, count));
        } else if before > 0 {
            let i = choose|i: int|
                0 <= i < count - 1 && i != winner && (#[trigger] surfaces[i]).1 == before;
            assert(surfaces[i].1 == runner_up_before(surfaces, winner, count));
        }
    }
}

/// A context gives a rule exactly if its winner was seen often enough, alone, with enough margin and
/// share, is not the reading itself in kana, and is a candidate of the dictionary but not the first.
pub proof fn a_rule_needs_every_condition(
    standing: Standing,
    winner: Seq<char>,
    reading: Seq<char>,
    thresholds: Thresholds,
    candidates: Seq<Seq<char>>,
)
    ensures
        final_judgement(
            first_judgement(standing, winner, reading, thresholds),
            winner,
            candidates,
        ) == Judgement::Eligible <==> {
            &&& standing.count >= thresholds.minimum_count
            &&& !standing.tied
            &&& standing.margin >= thresholds.minimum_margin
            &&& standing.share_basis_points >= thresholds.minimum_share_basis_points
            &&& phonetic_reading(winner) != Some(reading)
            &&& candidates.contains(winner)
            &&& candidates[0] != winner
        },
        standing.count < thresholds.minimum_count ==> first_judgement(
            standing,
            winner,
            reading,
            thresholds,
        ) == Judgement::BelowMinimumCount,
{
    let wanted = seq![winner];
    crate::candidate::first_expected_is_the_first(candidates, wanted);
    assert forall|text: Seq<char>| #[trigger] wanted.contains(text) <==> text == winner by {
        if text == winner {
            assert(wanted[0] == text);
        }
    }
    if candidates.contains(winner) {
        let i = choose|i: int| 0 <= i < candidates.len() && candidates[i] == winner;
        assert(wanted.contains(candidates[i]));
    }
    if first_expected(candidates, wanted) is Some {
        let place = first_expected(candidates, wanted)->0;
        assert(wanted.contains(candidates[place]));
        if place > 0 {
            assert(!wanted.contains(candidates[0]));
        }
    }
}

/// No rule that is left out is stronger than one that is kept: none was seen more often, none as
/// often with a greater margin, and none with the same of both and a greater share.
pub proof fn the_strongest_rules_are_kept(
    kept: Seq<Rule>,
    eligible: Seq<RuleView>,
    maximum: int,
    inside: int,
    outside: RuleView,
)
    requires
        maximum >= 0,
        is_strongest_selection(kept, eligible, maximum),
        0 <= inside < kept.len(),
        eligible.contains(outside),
        !rule_views(kept).contains(outside),
    ensures
        ({
            let rule = kept[inside];
            &&& outside.count <= rule.count
            &&& outside.count == rule.count ==> outside.margin <= rule.margin
            &&& outside.count == rule.count && outside.margin == rule.margin
                ==> outside.share_basis_points <= rule.share_basis_points
        }),
{
    let ranked = choose|ranked: Seq<RuleByStrength>| #[trigger]
        is_ranked(ranked) && {
            &&& by_strength_views(ranked).to_multiset() == eligible.to_multiset()
            &&& rule_views(kept).to_multiset() == by_strength_views(ranked).take(
                if ranked.len() <= maximum {
                    ranked.len() as int
                } else {
                    maximum
                },
            ).to_multiset()
        } && is_ranked(kept);
    let cut: int = if ranked.len() <= maximum {
        ranked.len() as int
    } else {
        maximum
    };
    let all = by_strength_views(ranked);
    let start = all.take(cut);
    let view = rule_views(kept)[inside];
    assert(rule_views(kept).contains(view));
    assert(start.to_multiset().count(view) > 0);
    assert(start.contains(view));
    let i = choose|i: int| 0 <= i < start.len() && start[i] == view;
    assert(eligible.to_multiset().count(outside) > 0);
    assert(all.contains(outside));
    let j = choose|j: int| 0 <= j < all.len() && all[j] == outside;
    if j < cut {
        assert(start[j] == outside);
        assert(start.contains(outside));
        assert(rule_views(kept).to_multiset().count(outside) > 0);
    }
    assert(!ranked[j].ranks_before(&ranked[i]));
}

} // verus!
