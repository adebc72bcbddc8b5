//! Benchmark items from a treebank: words whose reading has several spellings, in their context.

use crate::conllu::{
    is_mark, is_phrase_boundary, sentence_views, treebank_tokens, Sentence, SentenceView,
    TreebankToken, TreebankTokenView,
};
use crate::corpus::{pairs, TextPair};
use crate::devset::{token_line, write_tokens};
use crate::kana::{
    any_ideograph, has_ideograph, hiragana_text, hiragana_to_katakana, katakana_text,
    katakana_to_hiragana,
};
use crate::pair_table::PairTable;
use crate::sampling::{spread_over, spread_positions};
use crate::surface_annotation::{
    derived_reading, dictionary_rows, table_rows, SurfaceReadingIndex,
};
use crate::text::{
    character_count, characters, copied_texts, holds_character, joined, lines, same_text, text_between, texts,
};
use vstd::prelude::*;
use vstd::string::*;

verus! {

/// The shortest reading of a phrase window.
pub const PHRASE_MINIMUM_READING_CHARACTERS: usize = 6;

/// The longest reading of a phrase window.
pub const PHRASE_MAXIMUM_READING_CHARACTERS: usize = 20;

/// The longest reading of a word.
pub const MAXIMUM_WORD_READING: usize = 20;

/// How many characters of context an item keeps on each side.
pub const CONTEXT_CHARACTERS: usize = 40;

/// An item of the benchmark.
#[derive(Debug, PartialEq, Eq)]
pub struct EvaluationItem {
    pub source_split: String,
    pub index: String,
    pub target_upos: String,
    pub context_text: String,
    pub right_context_text: String,
    pub input: String,
    pub expected_output: Vec<String>,
    pub original_text: String,
}

/// An item of the benchmark as a mathematical value.
pub ghost struct EvaluationItemView {
    pub source_split: Seq<char>,
    pub index: Seq<char>,
    pub target_upos: Seq<char>,
    pub context_text: Seq<char>,
    pub right_context_text: Seq<char>,
    pub input: Seq<char>,
    pub expected_output: Seq<Seq<char>>,
    pub original_text: Seq<char>,
}

impl View for EvaluationItem {
    type V = EvaluationItemView;

    open spec fn view(&self) -> EvaluationItemView {
        EvaluationItemView {
            source_split: self.source_split@,
            index: self.index@,
            target_upos: self.target_upos@,
            context_text: self.context_text@,
            right_context_text: self.right_context_text@,
            input: self.input@,
            expected_output: texts(self.expected_output@),
            original_text: self.original_text@,
        }
    }
}

/// The values of some items.
pub open spec fn item_views(items: Seq<EvaluationItem>) -> Seq<EvaluationItemView> {
    Seq::new(items.len(), |i: int| items[i]@)
}

// ---------------------------------------------------------------------------
// Text
// ---------------------------------------------------------------------------

/// The text of some tokens, with the spaces behind them.
pub open spec fn rendered(tokens: Seq<TreebankTokenView>) -> Seq<char>
    decreases tokens.len(),
{
    if tokens.len() == 0 {
        Seq::empty()
    } else {
        let before = rendered(tokens.drop_last()) + tokens.last().surface;
        if tokens.last().space_after {
            before.push(' ')
        } else {
            before
        }
    }
}

proof fn rendered_in_parts(left: Seq<TreebankTokenView>, right: Seq<TreebankTokenView>)
    ensures
        rendered(left + right) == rendered(left) + rendered(right),
    decreases right.len(),
{
    let all = left + right;
    if right.len() == 0 {
        assert(all =~= left);
        assert(rendered(all) =~= rendered(left) + rendered(right));
    } else {
        rendered_in_parts(left, right.drop_last());
        assert(all.drop_last() =~= left + right.drop_last());
        assert(all.last() == right.last());
        assert(rendered(all) =~= rendered(left) + rendered(right));
    }
}

/// The context before a window, the window and the context behind it make up the sentence.
pub proof fn windows_and_contexts_make_up_the_sentence(
    tokens: Seq<TreebankTokenView>,
    start: int,
    end: int,
)
    requires
        0 <= start <= end <= tokens.len(),
    ensures
        rendered(tokens.take(start)) + rendered(tokens.subrange(start, end)) + rendered(
            tokens.skip(end),
        ) == rendered(tokens),
{
    rendered_in_parts(tokens.take(start), tokens.subrange(start, end));
    assert(tokens.take(start) + tokens.subrange(start, end) =~= tokens.take(end));
    rendered_in_parts(tokens.take(end), tokens.skip(end));
    assert(tokens.take(end) + tokens.skip(end) =~= tokens);
}

/// The text of the tokens from `start` up to `end`, with the spaces behind them.
fn render_surface(tokens: &[TreebankToken], start: usize, end: usize) -> (result: String)
    requires
        start <= end <= tokens@.len(),
    ensures
        result@ == rendered(treebank_tokens(tokens@).subrange(start as int, end as int)),
{
    let ghost all = treebank_tokens(tokens@);
    let mut surface: String = String::new();
    assert(all.subrange(start as int, start as int) =~= Seq::<TreebankTokenView>::empty());
    for index in start..end
        invariant
            all == treebank_tokens(tokens@),
            start <= end <= tokens@.len(),
            surface@ == rendered(all.subrange(start as int, index as int)),
    {
        let ghost longer = all.subrange(start as int, index + 1);
        assert(longer.drop_last() =~= all.subrange(start as int, index as int));
        surface.append(tokens[index].surface.as_str());
        if tokens[index].space_after {
            surface.push(' ');
        }
    }
    surface
}

/// The last characters of a text, as many as an item keeps.
pub open spec fn kept_before(text: Seq<char>) -> Seq<char> {
    if text.len() <= CONTEXT_CHARACTERS {
        text
    } else {
        text.skip(text.len() - CONTEXT_CHARACTERS)
    }
}

/// The first characters of a text, as many as an item keeps.
pub open spec fn kept_behind(text: Seq<char>) -> Seq<char> {
    if text.len() <= CONTEXT_CHARACTERS {
        text
    } else {
        text.take(CONTEXT_CHARACTERS as int)
    }
}

/// Both contexts of an item are bounded, and are the parts of the text next to its window.
pub proof fn kept_contexts_are_bounded(before: Seq<char>, behind: Seq<char>)
    ensures
        kept_before(before).len() <= CONTEXT_CHARACTERS,
        kept_before(before) == before.skip(before.len() - kept_before(before).len()),
        kept_behind(behind).len() <= CONTEXT_CHARACTERS,
        kept_behind(behind) == behind.take(kept_behind(behind).len() as int),
{
    assert(kept_before(before) =~= before.skip(before.len() - kept_before(before).len()));
    assert(kept_behind(behind) =~= behind.take(kept_behind(behind).len() as int));
}

fn keep_before(text: &str) -> (result: String)
    ensures
        result@ == kept_before(text@),
{
    let letters: Vec<char> = characters(text);
    let count: usize = letters.len();
    let start: usize = if count <= CONTEXT_CHARACTERS {
        0
    } else {
        count - CONTEXT_CHARACTERS
    };
    let result: String = text_between(letters.as_slice(), start, count);
    assert(result@ =~= kept_before(text@));
    result
}

fn keep_behind(text: &str) -> (result: String)
    ensures
        result@ == kept_behind(text@),
{
    let letters: Vec<char> = characters(text);
    let count: usize = letters.len();
    let end: usize = if count <= CONTEXT_CHARACTERS {
        count
    } else {
        CONTEXT_CHARACTERS
    };
    let result: String = text_between(letters.as_slice(), 0, end);
    assert(result@ =~= kept_behind(text@));
    result
}

// ---------------------------------------------------------------------------
// Targets
// ---------------------------------------------------------------------------

/// The parts of speech of content words.
pub open spec fn is_content(upos: Seq<char>) -> bool {
    upos == "ADJ"@ || upos == "ADV"@ || upos == "NOUN"@ || upos == "PROPN"@ || upos == "VERB"@
}

pub fn is_content_word(upos: &str) -> (result: bool)
    ensures
        result == is_content(upos@),
{
    same_text(upos, "ADJ") || same_text(upos, "ADV") || same_text(upos, "NOUN") || same_text(
        upos,
        "PROPN",
    ) || same_text(upos, "VERB")
}

/// The spellings of a reading that hold kanji. The dictionary is a set of readings with surfaces.
pub open spec fn kanji_spellings(dictionary: Set<TextPair>, reading: Seq<char>) -> Set<Seq<char>> {
    Set::new(
        |surface: Seq<char>| dictionary.contains((reading, surface)) && has_ideograph(surface),
    )
}

fn count_kanji_spellings(dictionary: &PairTable, reading: &str) -> (result: usize)
    requires
        dictionary.well_formed(),
    ensures
        result == kanji_spellings(dictionary@, reading@).len(),
        kanji_spellings(dictionary@, reading@).finite(),
{
    let surfaces: Vec<String> = dictionary.partners(reading);
    let ghost all = texts(surfaces@);
    let mut count: usize = 0;
    let ghost mut found: Set<Seq<char>> = Set::empty();
    for index in 0..surfaces.len()
        invariant
            all == texts(surfaces@),
            all.no_duplicates(),
            count <= index,
            found.finite(),
            count == found.len(),
            forall|surface: Seq<char>| #[trigger]
                found.contains(surface) <==> has_ideograph(surface) && exists|i: int|
                    0 <= i < index && all[i] == surface,
    {
        let ghost surface = all[index as int];
        let ghost before = found;
        assert(!found.contains(surface));
        if any_ideograph(surfaces[index].as_str()) {
            count += 1;
            proof {
                found = found.insert(surface);
            }
        }
        assert forall|other: Seq<char>| #[trigger]
            found.contains(other) <==> has_ideograph(other) && exists|i: int|
                0 <= i < index + 1 && all[i] == other by {
            if other == surface {
                assert(all[index as int] == other);
            } else {
                assert(found.contains(other) == before.contains(other));
                if exists|i: int| 0 <= i < index + 1 && all[i] == other {
                    let i = choose|i: int| 0 <= i < index + 1 && all[i] == other;
                    assert(0 <= i < index && all[i] == other);
                }
            }
        }
    }
    proof {
        assert forall|surface: Seq<char>|
            found.contains(surface) == kanji_spellings(dictionary@, reading@).contains(
                surface,
            ) by {
            if dictionary@.contains((reading@, surface)) {
                assert(all.contains(surface));
            }
            if found.contains(surface) {
                assert(all.contains(surface));
            }
        }
        assert(found =~= kanji_spellings(dictionary@, reading@));
    }
    count
}

/// How many spellings the reading of a token has.
pub open spec fn ambiguity(dictionary: Set<TextPair>, token: TreebankTokenView) -> nat {
    kanji_spellings(dictionary, hiragana_text(token.pronunciation)).len()
}

/// Whether a token can be a target: a content word with kanji behind some context, whose reading
/// is not too long and has the surface among at least two spellings with kanji.
pub open spec fn is_target(
    dictionary: Set<TextPair>,
    tokens: Seq<TreebankTokenView>,
    index: int,
) -> bool {
    let token = tokens[index];
    let reading = hiragana_text(token.pronunciation);
    &&& is_content(token.upos)
    &&& rendered(tokens.take(index)).len() >= 2
    &&& has_ideograph(token.surface)
    &&& reading.len() <= MAXIMUM_WORD_READING
    &&& dictionary.contains((reading, token.surface))
    &&& ambiguity(dictionary, token) >= 2
}

/// The target among the first `count` tokens: the one with the most spellings, then the one with
/// the longest context, then the last one.
pub open spec fn target_before(
    dictionary: Set<TextPair>,
    tokens: Seq<TreebankTokenView>,
    count: int,
) -> Option<int>
    decreases count,
{
    if count <= 0 {
        None
    } else {
        let best = target_before(dictionary, tokens, count - 1);
        let index = count - 1;
        if !is_target(dictionary, tokens, index) {
            best
        } else if best is Some && (ambiguity(dictionary, tokens[index]) < ambiguity(
            dictionary,
            tokens[best->0],
        ) || (ambiguity(dictionary, tokens[index]) == ambiguity(dictionary, tokens[best->0])
            && rendered(tokens.take(index)).len() < rendered(tokens.take(best->0)).len())) {
            best
        } else {
            Some(index)
        }
    }
}

/// The target of a sentence is one of its tokens that can be a target, and none that can be has
/// more spellings.
pub proof fn the_target_is_the_most_ambiguous(
    dictionary: Set<TextPair>,
    tokens: Seq<TreebankTokenView>,
    count: int,
)
    requires
        0 <= count <= tokens.len(),
    ensures
        match target_before(dictionary, tokens, count) {
            None => forall|i: int| 0 <= i < count ==> !#[trigger] is_target(dictionary, tokens, i),
            Some(best) => {
                &&& 0 <= best < count
                &&& is_target(dictionary, tokens, best)
                &&& forall|i: int|
                    0 <= i < count && #[trigger] is_target(dictionary, tokens, i) ==> ambiguity(
                        dictionary,
                        tokens[i],
                    ) <= ambiguity(dictionary, tokens[best])
            },
        },
    decreases count,
{
    if count > 0 {
        the_target_is_the_most_ambiguous(dictionary, tokens, count - 1);
    }
}

fn find_target(sentence: &Sentence, dictionary: &PairTable) -> (result: Option<usize>)
    requires
        dictionary.well_formed(),
    ensures
        result is Some <==> target_before(
            dictionary@,
            sentence@.tokens,
            sentence@.tokens.len() as int,
        ) is Some,
        result matches Some(index) ==> index < sentence.tokens@.len() && target_before(
            dictionary@,
            sentence@.tokens,
            sentence@.tokens.len() as int,
        ) == Some(index as int),
{
    let ghost all = treebank_tokens(sentence.tokens@);
    let mut context: String = String::new();
    let mut best: Option<usize> = None;
    let mut best_ambiguity: usize = 0;
    let mut best_length: usize = 0;
    assert(all.take(0) =~= Seq::<TreebankTokenView>::empty());
    for index in 0..sentence.tokens.len()
        invariant
            dictionary.well_formed(),
            all == treebank_tokens(sentence.tokens@),
            context@ == rendered(all.take(index as int)),
            best is Some <==> target_before(dictionary@, all, index as int) is Some,
            best matches Some(place) ==> {
                &&& place < index
                &&& target_before(dictionary@, all, index as int) == Some(place as int)
                &&& best_ambiguity == ambiguity(dictionary@, all[place as int])
                &&& best_length == rendered(all.take(place as int)).len()
            },
    {
        assert(all.take(index + 1).drop_last() =~= all.take(index as int));
        let token: &TreebankToken = &sentence.tokens[index];
        assert(all[index as int] == token@);
        let reading: String = katakana_to_hiragana(token.pronunciation.as_str());
        let length: usize = character_count(context.as_str());
        if is_content_word(token.upos.as_str()) && length >= 2 && any_ideograph(
            token.surface.as_str(),
        ) && character_count(reading.as_str()) <= MAXIMUM_WORD_READING && dictionary.holds(
            reading.as_str(),
            token.surface.as_str(),
        ) {
            let spellings: usize = count_kanji_spellings(dictionary, reading.as_str());
            if spellings >= 2 {
                assert(is_target(dictionary@, all, index as int));
                let better: bool = match best {
                    None => true,
                    Some(_) => spellings > best_ambiguity || (spellings == best_ambiguity && length
                        >= best_length),
                };
                if better {
                    best = Some(index);
                    best_ambiguity = spellings;
                    best_length = length;
                }
            }
        }
        context.append(token.surface.as_str());
        if token.space_after {
            context.push(' ');
        }
    }
    best
}

// ---------------------------------------------------------------------------
// Phrase windows
// ---------------------------------------------------------------------------

/// Whether a window whose reading has `length` characters can take in a token.
pub open spec fn can_take(tokens: Seq<TreebankTokenView>, index: int, length: int) -> bool {
    &&& 0 <= index < tokens.len()
    &&& !is_mark(tokens[index].upos)
    &&& length + tokens[index].pronunciation.len() <= PHRASE_MAXIMUM_READING_CHARACTERS
}

/// The window that grows from `start` and `end` until its reading is long enough, by a token to
/// the left where it can, by one to the right otherwise.
pub open spec fn widened(
    tokens: Seq<TreebankTokenView>,
    start: int,
    end: int,
    length: int,
) -> Option<(int, int)>
    decreases start + (tokens.len() - end),
    when 0 <= start <= end <= tokens.len()
{
    if length >= PHRASE_MINIMUM_READING_CHARACTERS {
        if length <= PHRASE_MAXIMUM_READING_CHARACTERS {
            Some((start, end))
        } else {
            None
        }
    } else if can_take(tokens, start - 1, length) {
        widened(tokens, start - 1, end, length + tokens[start - 1].pronunciation.len())
    } else if can_take(tokens, end, length) {
        widened(tokens, start, end + 1, length + tokens[end].pronunciation.len())
    } else {
        None
    }
}

/// The number of characters of the readings from `start` up to `end`.
pub open spec fn reading_length(tokens: Seq<TreebankTokenView>, start: int, end: int) -> int
    decreases end - start,
{
    if end <= start {
        0
    } else {
        reading_length(tokens, start, end - 1) + tokens[end - 1].pronunciation.len()
    }
}

proof fn reading_length_from_the_left(tokens: Seq<TreebankTokenView>, start: int, end: int)
    requires
        0 <= start < end <= tokens.len(),
    ensures
        reading_length(tokens, start, end) == tokens[start].pronunciation.len() + reading_length(
            tokens,
            start + 1,
            end,
        ),
    decreases end - start,
{
    if end - start > 1 {
        reading_length_from_the_left(tokens, start, end - 1);
    } else {
        assert(reading_length(tokens, start, start) == 0);
        assert(reading_length(tokens, start + 1, end) == 0);
    }
}

/// A phrase window holds its target, has a reading of the right length, and crosses no
/// punctuation.
pub proof fn phrase_windows_stay_in_their_phrase(tokens: Seq<TreebankTokenView>, target: int)
    requires
        0 <= target < tokens.len(),
    ensures
        widened(tokens, target, target + 1, tokens[target].pronunciation.len() as int) matches Some(
            window,
        ) ==> {
            &&& 0 <= window.0 <= target < window.1 <= tokens.len()
            &&& PHRASE_MINIMUM_READING_CHARACTERS <= reading_length(tokens, window.0, window.1)
                <= PHRASE_MAXIMUM_READING_CHARACTERS
            &&& forall|i: int|
                window.0 <= i < window.1 && i != target ==> !is_mark(
                    (#[trigger] tokens[i]).upos,
                )
        },
{
    assert(reading_length(tokens, target, target) == 0);
    widening_stays_in_the_phrase(tokens, target, target, target + 1);
}

proof fn widening_stays_in_the_phrase(
    tokens: Seq<TreebankTokenView>,
    target: int,
    start: int,
    end: int,
)
    requires
        0 <= start <= target < end <= tokens.len(),
        forall|i: int|
            start <= i < end && i != target ==> !is_mark((#[trigger] tokens[i]).upos),
    ensures
        widened(tokens, start, end, reading_length(tokens, start, end)) matches Some(window) ==> {
            &&& 0 <= window.0 <= target < window.1 <= tokens.len()
            &&& PHRASE_MINIMUM_READING_CHARACTERS <= reading_length(tokens, window.0, window.1)
                <= PHRASE_MAXIMUM_READING_CHARACTERS
            &&& forall|i: int|
                window.0 <= i < window.1 && i != target ==> !is_mark(
                    (#[trigger] tokens[i]).upos,
                )
        },
    decreases start + (tokens.len() - end),
{
    let length = reading_length(tokens, start, end);
    if length < PHRASE_MINIMUM_READING_CHARACTERS {
        if can_take(tokens, start - 1, length) {
            reading_length_from_the_left(tokens, start - 1, end);
            widening_stays_in_the_phrase(tokens, target, start - 1, end);
        } else if can_take(tokens, end, length) {
            widening_stays_in_the_phrase(tokens, target, start, end + 1);
        }
    }
}

fn can_take_in(tokens: &[TreebankToken], index: usize, length: usize) -> (result: Option<usize>)
    requires
        index < tokens@.len(),
        length < PHRASE_MINIMUM_READING_CHARACTERS,
    ensures
        result is Some <==> can_take(treebank_tokens(tokens@), index as int, length as int),
        result matches Some(longer) ==> longer == length + tokens@[index as int].pronunciation@.len(),
{
    let added: usize = character_count(tokens[index].pronunciation.as_str());
    assert(treebank_tokens(tokens@)[index as int] == tokens@[index as int]@);
    if is_phrase_boundary(tokens[index].upos.as_str()) || added
        > PHRASE_MAXIMUM_READING_CHARACTERS - length {
        None
    } else {
        Some(length + added)
    }
}

/// The window around a target whose reading is long enough, if there is one.
pub fn phrase_window_bounds(tokens: &[TreebankToken], target: usize) -> (result: Option<
    (usize, usize),
>)
    requires
        target < tokens@.len(),
    ensures
        ({
            let all = treebank_tokens(tokens@);
            let window = widened(
                all,
                target as int,
                target + 1,
                all[target as int].pronunciation.len() as int,
            );
            &&& result is Some <==> window is Some
            &&& result matches Some(bounds) ==> {
                &&& window == Some((bounds.0 as int, bounds.1 as int))
                &&& bounds.0 <= target < bounds.1 <= tokens@.len()
            }
        }),
{
    let ghost all = treebank_tokens(tokens@);
    let count: usize = tokens.len();
    assert(target < count);
    let mut start: usize = target;
    let mut end: usize = target + 1;
    let mut length: usize = character_count(tokens[target].pronunciation.as_str());
    while length < PHRASE_MINIMUM_READING_CHARACTERS
        invariant
            all == treebank_tokens(tokens@),
            start <= target < end <= tokens@.len(),
            widened(
                all,
                target as int,
                target + 1,
                all[target as int].pronunciation.len() as int,
            ) == widened(all, start as int, end as int, length as int),
        decreases start + (tokens@.len() - end),
    {
        let left: Option<usize> = if start > 0 {
            can_take_in(tokens, start - 1, length)
        } else {
            None
        };
        match left {
            Some(longer) => {
                start -= 1;
                length = longer;
            },
            None => {
                let right: Option<usize> = if end < tokens.len() {
                    can_take_in(tokens, end, length)
                } else {
                    None
                };
                match right {
                    Some(longer) => {
                        end += 1;
                        length = longer;
                    },
                    None => {
                        return None;
                    },
                }
            },
        }
    }
    if length <= PHRASE_MAXIMUM_READING_CHARACTERS {
        Some((start, end))
    } else {
        None
    }
}

/// The reading of a token in a phrase window: the one that its surface has, in katakana, or else
/// its pronunciation.
pub open spec fn window_reading_of(readings: Set<TextPair>, token: TreebankTokenView) -> Seq<char> {
    match derived_reading(readings, token.surface) {
        Some(reading) => katakana_text(reading),
        None => token.pronunciation,
    }
}

/// The reading of a phrase window.
pub open spec fn window_reading(readings: Set<TextPair>, tokens: Seq<TreebankTokenView>) -> Seq<char>
    decreases tokens.len(),
{
    if tokens.len() == 0 {
        Seq::empty()
    } else {
        window_reading(readings, tokens.drop_last()) + window_reading_of(readings, tokens.last())
    }
}

fn phrase_window_reading(
    tokens: &[TreebankToken],
    start: usize,
    end: usize,
    readings: &SurfaceReadingIndex,
) -> (result: String)
    requires
        readings.well_formed(),
        start <= end <= tokens@.len(),
    ensures
        result@ == window_reading(
            readings@,
            treebank_tokens(tokens@).subrange(start as int, end as int),
        ),
{
    let ghost all = treebank_tokens(tokens@);
    let mut result: String = String::new();
    assert(all.subrange(start as int, start as int) =~= Seq::<TreebankTokenView>::empty());
    for index in start..end
        invariant
            readings.well_formed(),
            all == treebank_tokens(tokens@),
            start <= end <= tokens@.len(),
            result@ == window_reading(readings@, all.subrange(start as int, index as int)),
    {
        let ghost longer = all.subrange(start as int, index + 1);
        assert(longer.drop_last() =~= all.subrange(start as int, index as int));
        match readings.reading(tokens[index].surface.as_str()) {
            Some(reading) => {
                result.append(hiragana_to_katakana(reading.as_str()).as_str());
            },
            None => {
                result.append(tokens[index].pronunciation.as_str());
            },
        }
    }
    result
}

// ---------------------------------------------------------------------------
// Items
// ---------------------------------------------------------------------------

/// The window of a target: a phrase around it, or the target alone.
pub open spec fn window_of(
    tokens: Seq<TreebankTokenView>,
    target: int,
    phrase_windows: bool,
) -> Option<(int, int)> {
    if phrase_windows {
        widened(tokens, target, target + 1, tokens[target].pronunciation.len() as int)
    } else {
        Some((target, target + 1))
    }
}

/// The item of a target in its window.
pub open spec fn item_of(
    sentence: SentenceView,
    target: int,
    window: (int, int),
    source_split: Seq<char>,
    phrase_windows: bool,
    readings: Set<TextPair>,
) -> EvaluationItemView {
    let tokens = sentence.tokens;
    let inside = tokens.subrange(window.0, window.1);
    EvaluationItemView {
        source_split,
        index: sentence.id + ":"@ + tokens[target].id,
        target_upos: tokens[target].upos,
        context_text: kept_before(rendered(tokens.subrange(0, window.0))),
        right_context_text: kept_behind(
            rendered(tokens.subrange(window.1, tokens.len() as int)),
        ),
        input: if phrase_windows {
            window_reading(readings, inside)
        } else {
            tokens[target].pronunciation
        },
        expected_output: seq![rendered(inside)],
        original_text: sentence.text,
    }
}

/// The items that were built, and the words that were taken.
pub type Built = (Seq<EvaluationItemView>, Set<TextPair>);

/// What is built after one more sentence. A word is taken once, whether or not it has a window.
pub open spec fn with_sentence(
    state: Built,
    sentence: SentenceView,
    dictionary: Set<TextPair>,
    source_split: Seq<char>,
    phrase_windows: bool,
    readings: Set<TextPair>,
) -> Built {
    let tokens = sentence.tokens;
    match target_before(dictionary, tokens, tokens.len() as int) {
        None => state,
        Some(target) => {
            let word = (tokens[target].pronunciation, tokens[target].surface);
            if state.1.contains(word) {
                state
            } else {
                let taken = state.1.insert(word);
                match window_of(tokens, target, phrase_windows) {
                    None => (state.0, taken),
                    Some(window) => (
                        state.0.push(
                            item_of(
                                sentence,
                                target,
                                window,
                                source_split,
                                phrase_windows,
                                readings,
                            ),
                        ),
                        taken,
                    ),
                }
            }
        },
    }
}

/// What is built after some sentences.
pub open spec fn with_sentences(
    sentences: Seq<SentenceView>,
    dictionary: Set<TextPair>,
    source_split: Seq<char>,
    phrase_windows: bool,
    readings: Set<TextPair>,
) -> Built
    decreases sentences.len(),
{
    if sentences.len() == 0 {
        (Seq::empty(), Set::empty())
    } else {
        with_sentence(
            with_sentences(
                sentences.drop_last(),
                dictionary,
                source_split,
                phrase_windows,
                readings,
            ),
            sentences.last(),
            dictionary,
            source_split,
            phrase_windows,
            readings,
        )
    }
}

/// A sentence makes at most one item.
pub proof fn a_sentence_makes_at_most_one_item(
    sentences: Seq<SentenceView>,
    dictionary: Set<TextPair>,
    source_split: Seq<char>,
    phrase_windows: bool,
    readings: Set<TextPair>,
)
    ensures
        with_sentences(sentences, dictionary, source_split, phrase_windows, readings).0.len()
            <= sentences.len(),
    decreases sentences.len(),
{
    if sentences.len() > 0 {
        a_sentence_makes_at_most_one_item(
            sentences.drop_last(),
            dictionary,
            source_split,
            phrase_windows,
            readings,
        );
    }
}

fn holds_word(words: &Vec<(String, String)>, pronunciation: &str, surface: &str) -> (result: bool)
    ensures
        result == pairs(words@).to_set().contains((pronunciation@, surface@)),
{
    let ghost all = pairs(words@);
    for index in 0..words.len()
        invariant
            all == pairs(words@),
            forall|i: int| 0 <= i < index ==> #[trigger] all[i] != (pronunciation@, surface@),
    {
        assert(all[index as int] == (words@[index as int].0@, words@[index as int].1@));
        if same_text(words[index].0.as_str(), pronunciation) && same_text(
            words[index].1.as_str(),
            surface,
        ) {
            assert(all.contains((pronunciation@, surface@)));
            return true;
        }
    }
    false
}

fn build_window_item(
    sentence: &Sentence,
    target: usize,
    start: usize,
    end: usize,
    source_split: &str,
    phrase_windows: bool,
    readings: &SurfaceReadingIndex,
) -> (result: EvaluationItem)
    requires
        readings.well_formed(),
        start <= target < end <= sentence.tokens@.len(),
    ensures
        result@ == item_of(
            sentence@,
            target as int,
            (start as int, end as int),
            source_split@,
            phrase_windows,
            readings@,
        ),
{
    let tokens: &[TreebankToken] = sentence.tokens.as_slice();
    let token: &TreebankToken = &sentence.tokens[target];
    assert(sentence@.tokens[target as int] == token@);
    let before: String = render_surface(tokens, 0, start);
    let behind: String = render_surface(tokens, end, tokens.len());
    let input: String = if phrase_windows {
        phrase_window_reading(tokens, start, end, readings)
    } else {
        token.pronunciation.clone()
    };
    let expected: String = render_surface(tokens, start, end);
    let mut expected_output: Vec<String> = Vec::new();
    expected_output.push(expected);
    assert(texts(expected_output@) =~= seq![expected@]);
    let named: String = joined(sentence.id.as_str(), ":");
    let index: String = joined(named.as_str(), token.id.as_str());
    EvaluationItem {
        source_split: source_split.to_owned(),
        index,
        target_upos: token.upos.clone(),
        context_text: keep_before(before.as_str()),
        right_context_text: keep_behind(behind.as_str()),
        input,
        expected_output,
        original_text: sentence.text.clone(),
    }
}

fn build_sentence(
    items: &mut Vec<EvaluationItem>,
    taken: &mut Vec<(String, String)>,
    sentence: &Sentence,
    dictionary: &PairTable,
    source_split: &str,
    phrase_windows: bool,
    readings: &SurfaceReadingIndex,
)
    requires
        dictionary.well_formed(),
        readings.well_formed(),
    ensures
        (item_views(final(items)@), pairs(final(taken)@).to_set()) == with_sentence(
            (item_views(old(items)@), pairs(old(taken)@).to_set()),
            sentence@,
            dictionary@,
            source_split@,
            phrase_windows,
            readings@,
        ),
{
    let target: usize = match find_target(sentence, dictionary) {
        Some(target) => target,
        None => {
            return;
        },
    };
    let token: &TreebankToken = &sentence.tokens[target];
    assert(sentence@.tokens[target as int] == token@);
    if holds_word(taken, token.pronunciation.as_str(), token.surface.as_str()) {
        return;
    }
    let ghost words = pairs(taken@);
    let ghost word = (token.pronunciation@, token.surface@);
    taken.push((token.pronunciation.clone(), token.surface.clone()));
    proof {
        assert(pairs(taken@) =~= words.push(word));
        assert forall|other: TextPair|
            words.push(word).to_set().contains(other) == words.to_set().insert(word).contains(
                other,
            ) by {
            if words.contains(other) {
                let i = choose|i: int| 0 <= i < words.len() && words[i] == other;
                assert(words.push(word)[i] == other);
            }
            if other == word {
                assert(words.push(word)[words.len() as int] == other);
            }
        }
        assert(pairs(taken@).to_set() =~= words.to_set().insert(word));
    }
    let count: usize = sentence.tokens.len();
    assert(target < count);
    let (start, end) = if phrase_windows {
        match phrase_window_bounds(sentence.tokens.as_slice(), target) {
            Some(bounds) => bounds,
            None => {
                return;
            },
        }
    } else {
        (target, target + 1)
    };
    let ghost before = item_views(items@);
    let item: EvaluationItem = build_window_item(
        sentence,
        target,
        start,
        end,
        source_split,
        phrase_windows,
        readings,
    );
    let ghost view = item@;
    items.push(item);
    assert(item_views(items@) =~= before.push(view));
}

/// The items of some sentences.
pub fn build_items(
    sentences: &[Sentence],
    dictionary: &PairTable,
    source_split: &str,
    phrase_windows: bool,
    surface_readings: &SurfaceReadingIndex,
) -> (result: Vec<EvaluationItem>)
    requires
        dictionary.well_formed(),
        surface_readings.well_formed(),
    ensures
        item_views(result@) == with_sentences(
            sentence_views(sentences@),
            dictionary@,
            source_split@,
            phrase_windows,
            surface_readings@,
        ).0,
{
    let ghost all = sentence_views(sentences@);
    let mut items: Vec<EvaluationItem> = Vec::new();
    let mut taken: Vec<(String, String)> = Vec::new();
    proof {
        assert(all.take(0) =~= Seq::<SentenceView>::empty());
        assert(item_views(items@) =~= Seq::<EvaluationItemView>::empty());
        assert(pairs(taken@).to_set() =~= Set::<TextPair>::empty());
    }
    for index in 0..sentences.len()
        invariant
            dictionary.well_formed(),
            surface_readings.well_formed(),
            all == sentence_views(sentences@),
            (item_views(items@), pairs(taken@).to_set()) == with_sentences(
                all.take(index as int),
                dictionary@,
                source_split@,
                phrase_windows,
                surface_readings@,
            ),
    {
        assert(all.take(index + 1).drop_last() =~= all.take(index as int));
        build_sentence(
            &mut items,
            &mut taken,
            &sentences[index],
            dictionary,
            source_split,
            phrase_windows,
            surface_readings,
        );
    }
    assert(all.take(all.len() as int) =~= all);
    items
}

/// The readings with the surfaces that a dictionary table has for them.
pub fn load_reading_surfaces(source: &str) -> (result: PairTable)
    ensures
        result.well_formed(),
        result@ == table_rows(lines(source@)).map_values(
            |row: TextPair| (hiragana_text(row.0), row.1),
        ).to_set(),
{
    let rows: Vec<(String, String)> = dictionary_rows(source);
    let ghost all = table_rows(lines(source@));
    let ghost owed = all.map_values(|row: TextPair| (hiragana_text(row.0), row.1));
    let mut normalized: Vec<(String, String)> = Vec::new();
    assert(pairs(rows@).len() == rows@.len());
    for index in 0..rows.len()
        invariant
            all == pairs(rows@),
            owed == all.map_values(|row: TextPair| (hiragana_text(row.0), row.1)),
            all.len() == rows@.len(),
            pairs(normalized@) == owed.take(index as int),
    {
        let ghost before = pairs(normalized@);
        normalized.push((katakana_to_hiragana(rows[index].0.as_str()), rows[index].1.clone()));
        assert(pairs(normalized@) =~= before.push(owed[index as int]));
        assert(owed.take(index + 1) =~= owed.take(index as int).push(owed[index as int]));
    }
    assert(owed.take(owed.len() as int) =~= owed);
    PairTable::from_pairs(normalized)
}

fn copied_item(item: &EvaluationItem) -> (result: EvaluationItem)
    ensures
        result@ == item@,
{
    EvaluationItem {
        source_split: item.source_split.clone(),
        index: item.index.clone(),
        target_upos: item.target_upos.clone(),
        context_text: item.context_text.clone(),
        right_context_text: item.right_context_text.clone(),
        input: item.input.clone(),
        expected_output: copied_texts(item.expected_output.as_slice()),
        original_text: item.original_text.clone(),
    }
}

/// Items that spread evenly over all of them; all of them if there are no more than `count`.
pub fn sample_evenly(items: Vec<EvaluationItem>, count: usize) -> (result: Vec<EvaluationItem>)
    ensures
        item_views(result@) == spread_positions(items@.len(), count as nat).map_values(
            |place: int| item_views(items@)[place],
        ),
{
    let positions: Vec<usize> = spread_over(items.len(), count);
    let ghost owed = spread_positions(items@.len(), count as nat);
    assert(positions@.len() == owed.len());
    let mut result: Vec<EvaluationItem> = Vec::new();
    for index in 0..positions.len()
        invariant
            positions@.map_values(|position: usize| position as int) == owed,
            positions@.len() == owed.len(),
            forall|i: int| 0 <= i < positions@.len() ==> #[trigger] positions@[i] < items@.len(),
            result@.len() == index,
            forall|i: int|
                0 <= i < index ==> #[trigger] item_views(result@)[i] == item_views(
                    items@,
                )[owed[i]],
    {
        let place: usize = positions[index];
        assert(owed[index as int] == positions@.map_values(
            |position: usize| position as int,
        )[index as int]);
        let ghost before = item_views(result@);
        result.push(copied_item(&items[place]));
        assert(item_views(result@) =~= before.push(item_views(items@)[place as int]));
    }
    assert(item_views(result@) =~= owed.map_values(|place: int| item_views(items@)[place]));
    result
}

// ---------------------------------------------------------------------------
// Annotated corpus
// ---------------------------------------------------------------------------

/// Whether a surface can stand on a line of an annotated corpus.
pub open spec fn is_writable(surface: Seq<char>) -> bool {
    !surface.contains('/') && !surface.contains(' ') && !surface.contains('\t')
}

/// The tokens of a sentence that can be written, with their readings.
pub open spec fn writable_tokens(tokens: Seq<TreebankTokenView>) -> Seq<TextPair>
    decreases tokens.len(),
{
    if tokens.len() == 0 {
        Seq::empty()
    } else {
        let before = writable_tokens(tokens.drop_last());
        let token = tokens.last();
        if is_writable(token.surface) {
            before.push((token.surface, hiragana_text(token.pronunciation)))
        } else {
            before
        }
    }
}

/// An annotated corpus: a line for each sentence.
pub open spec fn corpus_lines(sentences: Seq<SentenceView>) -> Seq<char>
    decreases sentences.len(),
{
    if sentences.len() == 0 {
        Seq::empty()
    } else {
        corpus_lines(sentences.drop_last()) + token_line(writable_tokens(sentences.last().tokens))
            + "\n"@
    }
}

fn readable_tokens(tokens: &[TreebankToken]) -> (result: Vec<(String, String)>)
    ensures
        pairs(result@) == writable_tokens(treebank_tokens(tokens@)),
{
    let ghost all = treebank_tokens(tokens@);
    let mut result: Vec<(String, String)> = Vec::new();
    assert(all.take(0) =~= Seq::<TreebankTokenView>::empty());
    assert(pairs(result@) =~= Seq::<TextPair>::empty());
    for index in 0..tokens.len()
        invariant
            all == treebank_tokens(tokens@),
            pairs(result@) == writable_tokens(all.take(index as int)),
    {
        assert(all.take(index + 1).drop_last() =~= all.take(index as int));
        let token: &TreebankToken = &tokens[index];
        let surface: &str = token.surface.as_str();
        if !holds_character(surface, '/') && !holds_character(surface, ' ') && !holds_character(
            surface,
            '\t',
        ) {
            let ghost before = pairs(result@);
            let reading: String = katakana_to_hiragana(token.pronunciation.as_str());
            let ghost view = (token.surface@, reading@);
            result.push((token.surface.clone(), reading));
            assert(pairs(result@) =~= before.push(view));
        }
    }
    assert(all.take(all.len() as int) =~= all);
    result
}

/// The sentences as an annotated corpus.
pub fn annotated_corpus(sentences: &[Sentence]) -> (result: String)
    ensures
        result@ == corpus_lines(sentence_views(sentences@)),
{
    let ghost all = sentence_views(sentences@);
    let mut output: String = String::new();
    assert(all.take(0) =~= Seq::<SentenceView>::empty());
    for index in 0..sentences.len()
        invariant
            all == sentence_views(sentences@),
            output@ == corpus_lines(all.take(index as int)),
    {
        assert(all.take(index + 1).drop_last() =~= all.take(index as int));
        let tokens: Vec<(String, String)> = readable_tokens(sentences[index].tokens.as_slice());
        write_tokens(&mut output, tokens.as_slice());
        output.append("\n");
    }
    assert(all.take(all.len() as int) =~= all);
    output
}

// ---------------------------------------------------------------------------
// What makes an item
// ---------------------------------------------------------------------------

/// The text of tokens is made of their surfaces in order, each with a space behind it if one stands
/// there.
pub proof fn a_token_is_rendered_behind_the_others(
    tokens: Seq<TreebankTokenView>,
    token: TreebankTokenView,
)
    ensures
        rendered(Seq::<TreebankTokenView>::empty()).len() == 0,
        token.space_after ==> rendered(tokens.push(token)) == rendered(tokens) + token.surface
            + seq![' '],
        !token.space_after ==> rendered(tokens.push(token)) == rendered(tokens) + token.surface,
{
    assert(tokens.push(token).drop_last() =~= tokens);
    let text = rendered(tokens) + token.surface;
    assert(text.push(' ') =~= text + seq![' ']);
}

/// Both contexts keep the 40 characters that are nearest to the window.
pub proof fn contexts_keep_what_is_next_to_the_window(before: Seq<char>, behind: Seq<char>, at: int)
    ensures
        kept_before(before).len() == (if before.len() < 40 {
            before.len()
        } else {
            40
        }),
        kept_behind(behind).len() == (if behind.len() < 40 {
            behind.len()
        } else {
            40
        }),
        0 <= at < kept_before(before).len() ==> kept_before(before)[kept_before(before).len() - 1 - at]
            == before[before.len() - 1 - at],
        0 <= at < kept_behind(behind).len() ==> kept_behind(behind)[at] == behind[at],
{
}

/// A token can be a target exactly if it is a content word with a kanji behind at least two characters,
/// its reading has at most 20 characters, and the dictionary has it and another spelling with a kanji
/// for the reading.
pub proof fn a_target_needs_every_condition(
    dictionary: Set<TextPair>,
    tokens: Seq<TreebankTokenView>,
    index: int,
)
    ensures
        is_target(dictionary, tokens, index) <==> {
            let token = tokens[index];
            let reading = hiragana_text(token.pronunciation);
            let spellings = Set::new(
                |surface: Seq<char>|
                    dictionary.contains((reading, surface)) && has_ideograph(surface),
            );
            &&& token.upos == "ADJ"@ || token.upos == "ADV"@ || token.upos == "NOUN"@ || token.upos
                == "PROPN"@ || token.upos == "VERB"@
            &&& rendered(tokens.take(index)).len() >= 2
            &&& reading.len() <= 20
            &&& spellings.contains(token.surface)
            &&& spellings.len() >= 2
        },
{
    let reading = hiragana_text(tokens[index].pronunciation);
    assert(Set::new(
        |surface: Seq<char>| dictionary.contains((reading, surface)) && has_ideograph(surface),
    ) =~= kanji_spellings(dictionary, reading));
}

/// Of targets with as many spellings, the one with the longer context is taken, and of those with as
/// long a context the last one.
pub proof fn ties_go_to_the_longest_context(
    dictionary: Set<TextPair>,
    tokens: Seq<TreebankTokenView>,
    count: int,
    other: int,
)
    requires
        0 <= other < count <= tokens.len(),
        is_target(dictionary, tokens, other),
    ensures
        target_before(dictionary, tokens, count) matches Some(best) ==> (ambiguity(
            dictionary,
            tokens[other],
        ) == ambiguity(dictionary, tokens[best]) ==> rendered(tokens.take(other)).len() < rendered(
            tokens.take(best),
        ).len() || (rendered(tokens.take(other)).len() == rendered(tokens.take(best)).len() && other
            <= best)),
        target_before(dictionary, tokens, count) is Some,
    decreases count,
{
    the_target_is_the_most_ambiguous(dictionary, tokens, count);
    the_target_is_the_most_ambiguous(dictionary, tokens, count - 1);
    if other < count - 1 {
        ties_go_to_the_longest_context(dictionary, tokens, count - 1, other);
    }
}

/// A window grows to the left first, by a token that is no punctuation and leaves at most 20 characters
/// of reading; it grows until it has six.
pub proof fn windows_grow_to_the_left_first(
    tokens: Seq<TreebankTokenView>,
    start: int,
    end: int,
    length: int,
)
    requires
        0 <= start <= end <= tokens.len(),
        length >= 0,
    ensures
        ({
            let found = widened(tokens, start, end, length);
            let left = start > 0 && tokens[start - 1].upos != "PUNCT"@ && tokens[start - 1].upos
                != "SYM"@ && length + tokens[start - 1].pronunciation.len() <= 20;
            let right = end < tokens.len() && tokens[end].upos != "PUNCT"@ && tokens[end].upos
                != "SYM"@ && length + tokens[end].pronunciation.len() <= 20;
            &&& 6 <= length <= 20 ==> found == Some((start, end))
            &&& length > 20 ==> found is None
            &&& length < 6 && left ==> found == widened(
                tokens,
                start - 1,
                end,
                length + tokens[start - 1].pronunciation.len(),
            )
            &&& length < 6 && !left && right ==> found == widened(
                tokens,
                start,
                end + 1,
                length + tokens[end].pronunciation.len(),
            )
            &&& length < 6 && !left && !right ==> found is None
        }),
{
}

/// A word is taken once: a sentence makes an item only if its target was not taken before, and is then
/// taken.
pub proof fn a_word_is_taken_once(
    state: Built,
    sentence: SentenceView,
    dictionary: Set<TextPair>,
    source_split: Seq<char>,
    phrase_windows: bool,
    readings: Set<TextPair>,
)
    ensures
        ({
            let after = with_sentence(
                state,
                sentence,
                dictionary,
                source_split,
                phrase_windows,
                readings,
            );
            let tokens = sentence.tokens;
            match target_before(dictionary, tokens, tokens.len() as int) {
                None => after == state,
                Some(target) => {
                    let word = (tokens[target].pronunciation, tokens[target].surface);
                    &&& after.1 == state.1.insert(word)
                    &&& state.1.contains(word) ==> after.0 == state.0
                    &&& !phrase_windows && !state.1.contains(word) ==> after.0.len()
                        == state.0.len() + 1 && after.0.last().input == word.0
                        && after.0.last().original_text == sentence.text
                        && after.0.last().source_split == source_split
                        && after.0.last().target_upos == tokens[target].upos
                        && after.0.last().index == sentence.id + ":"@ + tokens[target].id
                        && after.0.last().context_text == kept_before(
                        rendered(tokens.take(target)),
                    ) && after.0.last().right_context_text == kept_behind(
                        rendered(tokens.skip(target + 1)),
                    ) && after.0.last().expected_output == seq![
                        rendered(seq![tokens[target]]),
                    ]
                },
            }
        }),
{
    let tokens = sentence.tokens;
    the_target_is_the_most_ambiguous(dictionary, tokens, tokens.len() as int);
    match target_before(dictionary, tokens, tokens.len() as int) {
        None => {},
        Some(target) => {
            let word = (tokens[target].pronunciation, tokens[target].surface);
            if state.1.contains(word) {
                assert(state.1.insert(word) =~= state.1);
            }
            assert(tokens.subrange(target, target + 1) =~= seq![tokens[target]]);
            assert(tokens.subrange(0, target) =~= tokens.take(target));
            assert(tokens.subrange(target + 1, tokens.len() as int) =~= tokens.skip(target + 1));
        },
    }
}

} // verus!
