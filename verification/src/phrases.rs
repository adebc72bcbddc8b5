//! Compound phrases of annotated text.

use vstd::prelude::*;
use vstd::string::*;

use crate::context_rules::more;
use crate::corpus::TextPair;
use crate::evaluation::{joined_readings, joined_surfaces};
use crate::order::TextSet;
use crate::private_corpus::{token_views, Token};
use crate::sampling::{spread_over, spread_positions};
use crate::tables::{pair_key, pair_key_of};
use crate::text::{
    character_count, characters, split_at_last, split_last, texts, words, words_of,
};

verus! {

/// How many tokens a phrase has at least.
pub const MINIMUM_TOKENS: usize = 2;

/// How many tokens a phrase has at most.
pub const MAXIMUM_TOKENS: usize = 6;

/// How many characters the reading of a phrase has at least.
pub const MINIMUM_READING_CHARACTERS: usize = 4;

/// How many characters the reading of a phrase has at most.
pub const MAXIMUM_READING_CHARACTERS: usize = 16;

// ---------------------------------------------------------------------------
// Characters
// ---------------------------------------------------------------------------

/// A kana, with iteration marks and the long vowel mark.
pub open spec fn kana_letter(character: char) -> bool {
    'ぁ' <= character <= 'ゖ' || character == 'ゝ' || character == 'ゞ' || 'ァ' <= character
        <= 'ヶ' || character == 'ー' || character == 'ヽ' || character == 'ヾ'
}

/// A kanji, with the iteration mark 々 and the closing mark 〆.
pub open spec fn kanji_letter(character: char) -> bool {
    0x4e00 <= character as u32 <= 0x9fff || character == '々' || character == '〆'
}

/// A character of a compound: a kanji or a katakana.
pub open spec fn lexical_letter(character: char) -> bool {
    kanji_letter(character) || 'ァ' <= character <= 'ヶ' || character == 'ー' || character == 'ヽ'
        || character == 'ヾ'
}

pub fn is_kana(character: char) -> (result: bool)
    ensures
        result == kana_letter(character),
{
    ('ぁ' <= character && character <= 'ゖ') || character == 'ゝ' || character == 'ゞ' || ('ァ'
        <= character && character <= 'ヶ') || character == 'ー' || character == 'ヽ' || character
        == 'ヾ'
}

pub fn is_kanji(character: char) -> (result: bool)
    ensures
        result == kanji_letter(character),
{
    let code: u32 = character as u32;
    (0x4e00 <= code && code <= 0x9fff) || character == '々' || character == '〆'
}

pub fn is_lexical_character(character: char) -> (result: bool)
    ensures
        result == lexical_letter(character),
{
    is_kanji(character) || ('ァ' <= character && character <= 'ヶ') || character == 'ー'
        || character == 'ヽ' || character == 'ヾ'
}

/// Whether a reading is all kana.
pub open spec fn is_kana_text(reading: Seq<char>) -> bool {
    forall|i: int| 0 <= i < reading.len() ==> kana_letter(#[trigger] reading[i])
}

fn all_kana(reading: &str) -> (result: bool)
    ensures
        result == is_kana_text(reading@),
{
    let letters: Vec<char> = characters(reading);
    for index in 0..letters.len()
        invariant
            letters@ == reading@,
            forall|i: int| 0 <= i < index ==> kana_letter(#[trigger] reading@[i]),
    {
        if !is_kana(letters[index]) {
            assert(!kana_letter(reading@[index as int]));
            return false;
        }
    }
    true
}

/// Whether a surface can be part of a compound: two or more kanji or katakana.
pub open spec fn is_compound_part(surface: Seq<char>) -> bool {
    surface.len() >= 2 && forall|i: int|
        0 <= i < surface.len() ==> lexical_letter(#[trigger] surface[i])
}

pub fn is_compound_element(token: &Token) -> (result: bool)
    ensures
        result == is_compound_part(token.surface@),
{
    let letters: Vec<char> = characters(token.surface.as_str());
    if letters.len() < 2 {
        return false;
    }
    for index in 0..letters.len()
        invariant
            letters@ == token.surface@,
            letters@.len() >= 2,
            forall|i: int| 0 <= i < index ==> lexical_letter(#[trigger] token.surface@[i]),
    {
        if !is_lexical_character(letters[index]) {
            assert(!lexical_letter(token.surface@[index as int]));
            return false;
        }
    }
    true
}

/// Whether some character of a surface is a kanji.
pub open spec fn holds_kanji(surface: Seq<char>) -> bool {
    exists|i: int| 0 <= i < surface.len() && kanji_letter(#[trigger] surface[i])
}

fn any_kanji(surface: &str) -> (result: bool)
    ensures
        result == holds_kanji(surface@),
{
    let letters: Vec<char> = characters(surface);
    for index in 0..letters.len()
        invariant
            letters@ == surface@,
            forall|i: int| 0 <= i < index ==> !kanji_letter(#[trigger] surface@[i]),
    {
        if is_kanji(letters[index]) {
            assert(kanji_letter(surface@[index as int]));
            return true;
        }
    }
    false
}

/// Whether a surface ends like the name of an administrative unit.
pub open spec fn ends_administratively(surface: Seq<char>) -> bool {
    surface.len() > 0 && {
        let last = surface.last();
        last == '都' || last == '道' || last == '府' || last == '県' || last == '市' || last
            == '区' || last == '町' || last == '村' || last == '郡'
    }
}

pub fn has_administrative_suffix(surface: &str) -> (result: bool)
    ensures
        result == ends_administratively(surface@),
{
    let letters: Vec<char> = characters(surface);
    let count: usize = letters.len();
    if count == 0 {
        return false;
    }
    let last: char = letters[count - 1];
    last == '都' || last == '道' || last == '府' || last == '県' || last == '市' || last == '区'
        || last == '町' || last == '村' || last == '郡'
}

// ---------------------------------------------------------------------------
// Tokens
// ---------------------------------------------------------------------------

/// The tokens of the first `count` words; `None` if one has no surface or no reading.
pub open spec fn plain_tokens(items: Seq<Seq<char>>, count: int) -> Option<Seq<TextPair>>
    decreases count,
{
    if count <= 0 {
        Some(Seq::empty())
    } else {
        match plain_tokens(items, count - 1) {
            None => None,
            Some(tokens) => match split_last(items[count - 1], '/') {
                None => None,
                Some(parts) => if parts.0.len() == 0 || parts.1.len() == 0 {
                    None
                } else {
                    Some(tokens.push(parts))
                },
            },
        }
    }
}

/// The tokens of a line; `None` if it has none or holds something else.
pub open spec fn phrase_tokens(line: Seq<char>) -> Option<Seq<TextPair>> {
    match plain_tokens(words(line), words(line).len() as int) {
        None => None,
        Some(tokens) => if tokens.len() == 0 {
            None
        } else {
            Some(tokens)
        },
    }
}

proof fn missing_token_stays(items: Seq<Seq<char>>, low: int, high: int)
    requires
        plain_tokens(items, low) is None,
        0 <= low <= high,
    ensures
        plain_tokens(items, high) is None,
    decreases high - low,
{
    if low < high {
        missing_token_stays(items, low, high - 1);
    }
}

pub fn parse_tokens(line: &str) -> (result: Option<Vec<Token>>)
    ensures
        result is Some <==> phrase_tokens(line@) is Some,
        result matches Some(tokens) ==> phrase_tokens(line@) == Some(token_views(tokens@)),
{
    let found: Vec<String> = words_of(line);
    let ghost items = words(line@);
    let mut tokens: Vec<Token> = Vec::new();
    assert(token_views(tokens@) =~= Seq::<TextPair>::empty());
    for index in 0..found.len()
        invariant
            items == texts(found@),
            items == words(line@),
            plain_tokens(items, index as int) == Some(token_views(tokens@)),
    {
        assert(items[index as int] == found@[index as int]@);
        let ghost before = token_views(tokens@);
        match split_at_last(found[index].as_str(), '/') {
            None => {
                proof {
                    missing_token_stays(items, index + 1, items.len() as int);
                }
                return None;
            },
            Some(parts) => {
                if parts.0.as_str().is_empty() || parts.1.as_str().is_empty() {
                    proof {
                        missing_token_stays(items, index + 1, items.len() as int);
                    }
                    return None;
                }
                let ghost view = (parts.0@, parts.1@);
                tokens.push(Token { surface: parts.0, reading: parts.1 });
                assert(token_views(tokens@) =~= before.push(view));
            },
        }
    }
    assert(token_views(tokens@).len() == tokens@.len());
    if tokens.len() == 0 {
        None
    } else {
        Some(tokens)
    }
}

/// The runs of tokens with kana readings, and the run that the end of the tokens cuts: where
/// each starts and ends.
pub open spec fn scan_runs(tokens: Seq<TextPair>, count: int) -> (Seq<(int, int)>, int)
    decreases count,
{
    if count <= 0 {
        (Seq::empty(), 0)
    } else {
        let (complete, start) = scan_runs(tokens, count - 1);
        if is_kana_text(tokens[count - 1].1) {
            (complete, start)
        } else if start < count - 1 {
            (complete.push((start, count - 1)), count)
        } else {
            (complete, count)
        }
    }
}

/// The longest runs of tokens with kana readings.
pub open spec fn runs_of(tokens: Seq<TextPair>) -> Seq<(int, int)> {
    let (complete, start) = scan_runs(tokens, tokens.len() as int);
    if start < tokens.len() {
        complete.push((start, tokens.len() as int))
    } else {
        complete
    }
}

/// The bounds of the longest runs of tokens with kana readings.
pub fn phonetic_runs(tokens: &[Token]) -> (result: Vec<(usize, usize)>)
    ensures
        result@.map_values(|run: (usize, usize)| (run.0 as int, run.1 as int)) == runs_of(
            token_views(tokens@),
        ),
        forall|i: int|
            0 <= i < result@.len() ==> (#[trigger] result@[i]).0 < result@[i].1 <= tokens@.len(),
{
    let ghost view = |run: (usize, usize)| (run.0 as int, run.1 as int);
    let ghost all = token_views(tokens@);
    let mut result: Vec<(usize, usize)> = Vec::new();
    let mut start: usize = 0;
    assert(result@.map_values(view) =~= Seq::<(int, int)>::empty());
    for index in 0..tokens.len()
        invariant
            view == (|run: (usize, usize)| (run.0 as int, run.1 as int)),
            all == token_views(tokens@),
            (result@.map_values(view), start as int) == scan_runs(all, index as int),
            start <= index,
            forall|i: int|
                0 <= i < result@.len() ==> (#[trigger] result@[i]).0 < result@[i].1
                    <= tokens@.len(),
    {
        assert(all[index as int] == tokens@[index as int]@);
        if !all_kana(tokens[index].reading.as_str()) {
            if start < index {
                let ghost before = result@.map_values(view);
                result.push((start, index));
                assert(result@.map_values(view) =~= before.push((start as int, index as int)));
            }
            start = index + 1;
        }
    }
    if start < tokens.len() {
        let ghost before = result@.map_values(view);
        result.push((start, tokens.len()));
        assert(result@.map_values(view) =~= before.push((start as int, tokens@.len() as int)));
    }
    result
}

// ---------------------------------------------------------------------------
// Suspicious tokens
// ---------------------------------------------------------------------------

/// The last region among the first `count` tokens.
pub open spec fn last_region(regions: Seq<bool>, count: int) -> Option<int>
    decreases count,
{
    if count <= 0 {
        None
    } else if regions[count - 1] {
        Some(count - 1)
    } else {
        last_region(regions, count - 1)
    }
}

/// Whether the token at `index` makes those from the last region up to itself suspicious: it
/// ends like an administrative unit without being a known region.
pub open spec fn raises_suspicion(tokens: Seq<TextPair>, regions: Seq<bool>, index: int) -> bool {
    !regions[index] && ends_administratively(tokens[index].0) && last_region(regions, index) is Some
}

/// Whether the token is suspicious by one of the first `count` tokens.
pub open spec fn is_suspicious(
    tokens: Seq<TextPair>,
    regions: Seq<bool>,
    token: int,
    count: int,
) -> bool {
    exists|index: int|
        token <= index < count && #[trigger] raises_suspicion(tokens, regions, index)
            && last_region(regions, index)->0 <= token
}

/// Which tokens are suspicious. `regions` says of each token whether the dictionary knows it
/// as a region.
pub fn suspicious_administrative_tokens(tokens: &[Token], regions: &[bool]) -> (result: Vec<bool>)
    requires
        regions@.len() == tokens@.len(),
    ensures
        result@.len() == tokens@.len(),
        forall|i: int|
            0 <= i < tokens@.len() ==> #[trigger] result@[i] == is_suspicious(
                token_views(tokens@),
                regions@,
                i,
                tokens@.len() as int,
            ),
{
    let count: usize = tokens.len();
    let ghost all = token_views(tokens@);
    let mut result: Vec<bool> = Vec::new();
    for index in 0..count
        invariant
            result@.len() == index,
            forall|i: int| 0 <= i < index ==> !#[trigger] result@[i],
    {
        result.push(false);
    }
    let mut region: Option<usize> = None;
    for index in 0..count
        invariant
            count == tokens@.len(),
            regions@.len() == count,
            all == token_views(tokens@),
            result@.len() == count,
            region matches Some(place) ==> last_region(regions@, index as int) == Some(
                place as int,
            ) && place < index,
            region is None ==> last_region(regions@, index as int) is None,
            forall|i: int|
                0 <= i < count ==> #[trigger] result@[i] == is_suspicious(
                    all,
                    regions@,
                    i,
                    index as int,
                ),
    {
        assert(all[index as int] == tokens@[index as int]@);
        let ghost before = result@;
        if regions[index] {
            region = Some(index);
        } else if has_administrative_suffix(tokens[index].surface.as_str()) {
            if let Some(place) = region {
                for number in place..index + 1
                    invariant
                        place <= index < count,
                        result@.len() == count,
                        forall|i: int|
                            0 <= i < count ==> #[trigger] result@[i] == (before[i] || (place <= i
                                < number)),
                {
                    result.set(number, true);
                }
            }
        }
        proof {
            let after = result@;
            assert forall|i: int| 0 <= i < count implies #[trigger] after[i] == is_suspicious(
                all,
                regions@,
                i,
                index + 1,
            ) by {
                assert(before[i] == is_suspicious(all, regions@, i, index as int));
                if is_suspicious(all, regions@, i, index as int) {
                    let by = choose|by: int|
                        i <= by < index && #[trigger] raises_suspicion(all, regions@, by)
                            && last_region(regions@, by)->0 <= i;
                    assert(raises_suspicion(all, regions@, by));
                }
                if raises_suspicion(all, regions@, index as int) && i <= index && last_region(
                    regions@,
                    index as int,
                )->0 <= i {
                    assert(after[i]);
                }
                if is_suspicious(all, regions@, i, index + 1) && !is_suspicious(
                    all,
                    regions@,
                    i,
                    index as int,
                ) {
                    let by = choose|by: int|
                        i <= by < index + 1 && #[trigger] raises_suspicion(all, regions@, by)
                            && last_region(regions@, by)->0 <= i;
                    assert(by == index);
                }
            }
        }
    }
    result
}

// ---------------------------------------------------------------------------
// Phrases
// ---------------------------------------------------------------------------

/// A phrase with its reading.
#[derive(Debug, PartialEq, Eq)]
pub struct Phrase {
    pub reading: String,
    pub surface: String,
}

/// The readings and surfaces of some phrases.
pub open spec fn phrase_views(phrases: Seq<Phrase>) -> Seq<TextPair> {
    Seq::new(phrases.len(), |i: int| (phrases[i].reading@, phrases[i].surface@))
}

/// What became of the windows of tokens. No count goes beyond the greatest number.
#[derive(Clone, Copy, Debug, PartialEq, Eq, Structural)]
pub struct Stats {
    pub lines: usize,
    pub invalid_lines: usize,
    pub windows: usize,
    pub non_compound_elements: usize,
    pub suspicious_administrative_windows: usize,
    pub insufficient_kanji_elements: usize,
    pub outside_reading_length: usize,
    pub duplicates: usize,
    pub unique_phrases: usize,
    pub selected_phrases: usize,
}

impl Default for Stats {
    fn default() -> (result: Self)
        ensures
            result == no_stats(),
    {
        Stats {
            lines: 0,
            invalid_lines: 0,
            windows: 0,
            non_compound_elements: 0,
            suspicious_administrative_windows: 0,
            insufficient_kanji_elements: 0,
            outside_reading_length: 0,
            duplicates: 0,
            unique_phrases: 0,
            selected_phrases: 0,
        }
    }
}

/// The counts before anything was read.
pub open spec fn no_stats() -> Stats {
    Stats {
        lines: 0,
        invalid_lines: 0,
        windows: 0,
        non_compound_elements: 0,
        suspicious_administrative_windows: 0,
        insufficient_kanji_elements: 0,
        outside_reading_length: 0,
        duplicates: 0,
        unique_phrases: 0,
        selected_phrases: 0,
    }
}

/// The phrases that were collected, as a mathematical value.
pub ghost struct PhraseView {
    pub seen: Set<Seq<char>>,
    pub phrases: Seq<TextPair>,
    pub stats: Stats,
}

/// How many of the first `count` tokens from `start` on hold a kanji.
pub open spec fn kanji_tokens(tokens: Seq<TextPair>, start: int, count: int) -> nat
    decreases count,
{
    if count <= 0 {
        0
    } else {
        kanji_tokens(tokens, start, count - 1) + (if holds_kanji(tokens[start + count - 1].0) {
            1nat
        } else {
            0
        })
    }
}

/// What is collected after one more window of tokens. A window is a phrase if it is made of
/// compound parts, none of them suspicious, at least two of them with kanji, if its reading
/// has the right length, and if it was not collected before.
pub open spec fn with_window(
    state: PhraseView,
    tokens: Seq<TextPair>,
    suspicious: Seq<bool>,
    start: int,
    end: int,
) -> PhraseView {
    let window = tokens.subrange(start, end);
    let stats = Stats { windows: more(state.stats.windows, 1), ..state.stats };
    let reading = joined_readings(window);
    let surface = joined_surfaces(window);
    if exists|i: int| start <= i < end && !is_compound_part((#[trigger] tokens[i]).0) {
        PhraseView {
            stats: Stats {
                non_compound_elements: more(stats.non_compound_elements, 1),
                ..stats
            },
            ..state
        }
    } else if exists|i: int| start <= i < end && #[trigger] suspicious[i] {
        PhraseView {
            stats: Stats {
                suspicious_administrative_windows: more(
                    stats.suspicious_administrative_windows,
                    1,
                ),
                ..stats
            },
            ..state
        }
    } else if kanji_tokens(tokens, start, end - start) < 2 {
        PhraseView {
            stats: Stats {
                insufficient_kanji_elements: more(stats.insufficient_kanji_elements, 1),
                ..stats
            },
            ..state
        }
    } else if !(MINIMUM_READING_CHARACTERS <= reading.len() <= MAXIMUM_READING_CHARACTERS) {
        PhraseView {
            stats: Stats {
                outside_reading_length: more(stats.outside_reading_length, 1),
                ..stats
            },
            ..state
        }
    } else if state.seen.contains(pair_key_of(reading, surface)) {
        PhraseView { stats: Stats { duplicates: more(stats.duplicates, 1), ..stats }, ..state }
    } else {
        PhraseView {
            seen: state.seen.insert(pair_key_of(reading, surface)),
            phrases: state.phrases.push((reading, surface)),
            stats,
        }
    }
}

/// Where the longest window from `start` on ends.
pub open spec fn longest_end(start: int, length: int) -> int {
    if start + MAXIMUM_TOKENS <= length {
        start + MAXIMUM_TOKENS
    } else {
        length
    }
}

/// What is collected after the windows from `start` on that end before `end`, the shortest
/// first.
pub open spec fn with_ends(
    state: PhraseView,
    tokens: Seq<TextPair>,
    suspicious: Seq<bool>,
    start: int,
    end: int,
) -> PhraseView
    decreases end - start,
{
    if end <= start + MINIMUM_TOKENS {
        state
    } else {
        with_window(
            with_ends(state, tokens, suspicious, start, end - 1),
            tokens,
            suspicious,
            start,
            end - 1,
        )
    }
}

/// What is collected after the windows that start at one of the first `count` tokens.
pub open spec fn with_starts(
    state: PhraseView,
    tokens: Seq<TextPair>,
    suspicious: Seq<bool>,
    count: int,
) -> PhraseView
    decreases count,
{
    if count <= 0 {
        state
    } else {
        with_ends(
            with_starts(state, tokens, suspicious, count - 1),
            tokens,
            suspicious,
            count - 1,
            longest_end(count - 1, tokens.len() as int) + 1,
        )
    }
}

/// Phrases that are collected from annotated text.
#[derive(Debug)]
pub struct PhraseCollector {
    pub seen: TextSet,
    pub phrases: Vec<Phrase>,
    pub stats: Stats,
}

impl View for PhraseCollector {
    type V = PhraseView;

    open spec fn view(&self) -> PhraseView {
        PhraseView {
            seen: self.seen@,
            phrases: phrase_views(self.phrases@),
            stats: self.stats,
        }
    }
}

impl PhraseCollector {
    pub open spec fn well_formed(&self) -> bool {
        self.seen.well_formed()
    }

    pub fn new() -> (result: Self)
        ensures
            result.well_formed(),
            result@ == (PhraseView {
                seen: Set::empty(),
                phrases: Seq::empty(),
                stats: no_stats(),
            }),
    {
        let result: PhraseCollector = PhraseCollector {
            seen: TextSet::new(),
            phrases: Vec::new(),
            stats: Stats::default(),
        };
        assert(phrase_views(result.phrases@) =~= Seq::<TextPair>::empty());
        result
    }

    fn collect_window(&mut self, tokens: &[Token], suspicious: &[bool], start: usize, end: usize)
        requires
            old(self).well_formed(),
            suspicious@.len() == tokens@.len(),
            start <= end <= tokens@.len(),
        ensures
            final(self).well_formed(),
            final(self)@ == with_window(
                old(self)@,
                token_views(tokens@),
                suspicious@,
                start as int,
                end as int,
            ),
    {
        let ghost all = token_views(tokens@);
        self.stats.windows = self.stats.windows.saturating_add(1);
        let mut compound: bool = true;
        let mut doubtful: bool = false;
        let mut kanji: usize = 0;
        let mut reading: String = String::new();
        let mut surface: String = String::new();
        assert(all.subrange(start as int, start as int) =~= Seq::<TextPair>::empty());
        for index in start..end
            invariant
                all == token_views(tokens@),
                suspicious@.len() == tokens@.len(),
                start <= end <= tokens@.len(),
                compound == !(exists|i: int|
                    start <= i < index && !is_compound_part((#[trigger] all[i]).0)),
                doubtful == exists|i: int| start <= i < index && #[trigger] suspicious@[i],
                kanji == kanji_tokens(all, start as int, index - start),
                kanji <= index - start,
                reading@ == joined_readings(all.subrange(start as int, index as int)),
                surface@ == joined_surfaces(all.subrange(start as int, index as int)),
        {
            let ghost longer = all.subrange(start as int, index + 1);
            assert(longer.drop_last() =~= all.subrange(start as int, index as int));
            assert(all[index as int] == tokens@[index as int]@);
            let token: &Token = &tokens[index];
            if !is_compound_element(token) {
                assert(!is_compound_part(all[index as int].0));
                compound = false;
            }
            if suspicious[index] {
                assert(suspicious@[index as int]);
                doubtful = true;
            }
            if any_kanji(token.surface.as_str()) {
                kanji += 1;
            }
            reading.append(token.reading.as_str());
            surface.append(token.surface.as_str());
        }
        if !compound {
            self.stats.non_compound_elements = self.stats.non_compound_elements.saturating_add(1);
            return;
        }
        if doubtful {
            self.stats.suspicious_administrative_windows =
                self.stats.suspicious_administrative_windows.saturating_add(1);
            return;
        }
        if kanji < 2 {
            self.stats.insufficient_kanji_elements =
                self.stats.insufficient_kanji_elements.saturating_add(1);
            return;
        }
        let length: usize = character_count(reading.as_str());
        if length < MINIMUM_READING_CHARACTERS || length > MAXIMUM_READING_CHARACTERS {
            self.stats.outside_reading_length =
                self.stats.outside_reading_length.saturating_add(1);
            return;
        }
        let key: String = pair_key(reading.as_str(), surface.as_str());
        if !self.seen.insert(key.as_str()) {
            assert(self.seen@ =~= old(self).seen@);
            self.stats.duplicates = self.stats.duplicates.saturating_add(1);
            return;
        }
        let ghost before = phrase_views(self.phrases@);
        let ghost view = (reading@, surface@);
        self.phrases.push(Phrase { reading, surface });
        assert(phrase_views(self.phrases@) =~= before.push(view));
    }

    fn collect_from(&mut self, tokens: &[Token], suspicious: &[bool], start: usize)
        requires
            old(self).well_formed(),
            suspicious@.len() == tokens@.len(),
            start < tokens@.len(),
        ensures
            final(self).well_formed(),
            final(self)@ == with_ends(
                old(self)@,
                token_views(tokens@),
                suspicious@,
                start as int,
                longest_end(start as int, tokens@.len() as int) + 1,
            ),
    {
        let count: usize = tokens.len();
        let room: usize = count - start;
        let longest: usize = if room >= MAXIMUM_TOKENS {
            MAXIMUM_TOKENS
        } else {
            room
        };
        let ghost before = self@;
        let mut length: usize = MINIMUM_TOKENS;
        while length <= longest
            invariant
                self.well_formed(),
                suspicious@.len() == tokens@.len(),
                count == tokens@.len(),
                start < count,
                longest <= MAXIMUM_TOKENS,
                start + longest == longest_end(start as int, count as int),
                MINIMUM_TOKENS <= length,
                length <= longest + 1 || length == MINIMUM_TOKENS,
                self@ == with_ends(
                    before,
                    token_views(tokens@),
                    suspicious@,
                    start as int,
                    start + length,
                ),
            decreases MAXIMUM_TOKENS + 1 - length,
        {
            self.collect_window(tokens, suspicious, start, start + length);
            length += 1;
        }
        if longest < MINIMUM_TOKENS {
            assert(with_ends(
                before,
                token_views(tokens@),
                suspicious@,
                start as int,
                start + longest + 1,
            ) == before);
        }
    }

    /// Collects the phrases of a run of tokens. `regions` says of each token whether the
    /// dictionary knows it as a region.
    pub fn collect_phrases(&mut self, tokens: &[Token], regions: &[bool])
        requires
            old(self).well_formed(),
            regions@.len() == tokens@.len(),
        ensures
            final(self).well_formed(),
            final(self)@ == with_starts(
                old(self)@,
                token_views(tokens@),
                suspicions(token_views(tokens@), regions@),
                tokens@.len() as int,
            ),
    {
        let suspicious: Vec<bool> = suspicious_administrative_tokens(tokens, regions);
        let ghost all = token_views(tokens@);
        let ghost before = self@;
        assert(suspicious@ =~= suspicions(all, regions@));
        for start in 0..tokens.len()
            invariant
                self.well_formed(),
                all == token_views(tokens@),
                suspicious@.len() == tokens@.len(),
                self@ == with_starts(before, all, suspicious@, start as int),
        {
            self.collect_from(tokens, suspicious.as_slice(), start);
        }
    }

    /// At most `limit` of the phrases, with the counts. There must be a phrase.
    pub fn finish(&self, limit: usize) -> (result: Result<(Vec<Phrase>, Stats), String>)
        ensures
            result is Ok <==> self@.phrases.len() > 0,
            result matches Ok(found) ==> {
                &&& phrase_views(found.0@) == spread_positions(
                    self@.phrases.len(),
                    limit as nat,
                ).map_values(|place: int| self@.phrases[place])
                &&& found.1 == (Stats {
                    unique_phrases: self@.phrases.len() as usize,
                    selected_phrases: found.0@.len() as usize,
                    ..self@.stats
                })
            },
            result matches Err(problem) ==> problem@
                == "annotated inputs produced no compound phrases"@,
    {
        assert(self@.phrases.len() == self.phrases@.len());
        if self.phrases.len() == 0 {
            return Err("annotated inputs produced no compound phrases".to_owned());
        }
        let selected: Vec<Phrase> = sample_evenly(self.phrases.as_slice(), limit);
        let mut stats: Stats = self.stats;
        stats.unique_phrases = self.phrases.len();
        stats.selected_phrases = selected.len();
        Ok((selected, stats))
    }

    /// Counts a line that was read; without tokens it is not valid.
    pub fn count_line(&mut self, tokens: &Option<Vec<Token>>)
        requires
            old(self).well_formed(),
        ensures
            final(self).well_formed(),
            final(self)@ == (PhraseView {
                stats: Stats {
                    lines: more(old(self)@.stats.lines, 1),
                    invalid_lines: if tokens is None {
                        more(old(self)@.stats.invalid_lines, 1)
                    } else {
                        old(self)@.stats.invalid_lines
                    },
                    ..old(self)@.stats
                },
                ..old(self)@
            }),
    {
        self.stats.lines = self.stats.lines.saturating_add(1);
        if tokens.is_none() {
            self.stats.invalid_lines = self.stats.invalid_lines.saturating_add(1);
        }
    }
}

/// Which tokens are suspicious.
pub open spec fn suspicions(tokens: Seq<TextPair>, regions: Seq<bool>) -> Seq<bool> {
    Seq::new(
        tokens.len(),
        |i: int| is_suspicious(tokens, regions, i, tokens.len() as int),
    )
}

/// Whether a collected phrase is one: a reading of the right length.
pub open spec fn is_phrase(phrase: TextPair) -> bool {
    MINIMUM_READING_CHARACTERS <= phrase.0.len() <= MAXIMUM_READING_CHARACTERS
}

/// Every phrase that a window adds has a reading of the right length and was not collected
/// before; no phrase that was collected is lost.
pub proof fn windows_add_only_new_phrases(
    state: PhraseView,
    tokens: Seq<TextPair>,
    suspicious: Seq<bool>,
    start: int,
    end: int,
)
    ensures
        ({
            let after = with_window(state, tokens, suspicious, start, end);
            &&& after.phrases == state.phrases || (after.phrases.len() == state.phrases.len() + 1
                && after.phrases.drop_last() == state.phrases && is_phrase(after.phrases.last())
                && !state.seen.contains(
                pair_key_of(after.phrases.last().0, after.phrases.last().1),
            ))
            &&& state.seen.subset_of(after.seen)
        }),
{
    let after = with_window(state, tokens, suspicious, start, end);
    if after.phrases != state.phrases {
        assert(after.phrases.drop_last() =~= state.phrases);
    }
}

/// Phrases that spread evenly over all of them, at most `limit`.
pub fn sample_evenly(phrases: &[Phrase], limit: usize) -> (result: Vec<Phrase>)
    ensures
        phrase_views(result@) == spread_positions(phrases@.len(), limit as nat).map_values(
            |place: int| phrase_views(phrases@)[place],
        ),
{
    let positions: Vec<usize> = spread_over(phrases.len(), limit);
    let ghost owed = spread_positions(phrases@.len(), limit as nat);
    let mut result: Vec<Phrase> = Vec::new();
    assert(positions@.len() == owed.len());
    for index in 0..positions.len()
        invariant
            positions@.map_values(|position: usize| position as int) == owed,
            positions@.len() == owed.len(),
            forall|i: int| 0 <= i < positions@.len() ==> #[trigger] positions@[i] < phrases@.len(),
            result@.len() == index,
            forall|i: int|
                0 <= i < index ==> (#[trigger] phrase_views(result@)[i]) == phrase_views(
                    phrases@,
                )[owed[i]],
    {
        let place: usize = positions[index];
        assert(owed[index as int] == positions@.map_values(
            |position: usize| position as int,
        )[index as int]);
        let ghost before = phrase_views(result@);
        result.push(
            Phrase {
                reading: phrases[place].reading.clone(),
                surface: phrases[place].surface.clone(),
            },
        );
        assert(phrase_views(result@) =~= before.push(phrase_views(phrases@)[place as int]));
    }
    assert(phrase_views(result@) =~= owed.map_values(|place: int| phrase_views(phrases@)[place]));
    result
}

/// The lines of the phrases: reading and surface.
pub open spec fn phrase_lines(phrases: Seq<TextPair>) -> Seq<char>
    decreases phrases.len(),
{
    if phrases.len() == 0 {
        Seq::empty()
    } else {
        phrase_lines(phrases.drop_last()) + phrases.last().0 + "\t"@ + phrases.last().1 + "\n"@
    }
}

/// The phrases as a table.
pub fn render_phrases(phrases: &[Phrase]) -> (result: String)
    ensures
        result@ == phrase_lines(phrase_views(phrases@)),
{
    let ghost all = phrase_views(phrases@);
    let mut output: String = String::new();
    assert(all.take(0) =~= Seq::<TextPair>::empty());
    for index in 0..phrases.len()
        invariant
            all == phrase_views(phrases@),
            output@ == phrase_lines(all.take(index as int)),
    {
        assert(all.take(index + 1).drop_last() =~= all.take(index as int));
        output.append(phrases[index].reading.as_str());
        output.append("\t");
        output.append(phrases[index].surface.as_str());
        output.append("\n");
    }
    assert(all.take(all.len() as int) =~= all);
    output
}

// ---------------------------------------------------------------------------
// What is collected
// ---------------------------------------------------------------------------

/// Whether the tokens from `start` to `end` make a phrase: each has at least two characters, all kanji
/// or katakana, none is suspicious, at least two hold a kanji, and their readings have four to 16
/// characters together.
pub open spec fn makes_a_phrase(
    tokens: Seq<TextPair>,
    suspicious: Seq<bool>,
    start: int,
    end: int,
) -> bool {
    &&& forall|i: int| start <= i < end ==> is_compound_part((#[trigger] tokens[i]).0)
    &&& forall|i: int| start <= i < end ==> !#[trigger] suspicious[i]
    &&& kanji_tokens(tokens, start, end - start) >= 2
    &&& 4 <= joined_readings(tokens.subrange(start, end)).len() <= 16
}

/// The phrase that some tokens make: their readings and their surfaces, one behind the other.
pub open spec fn phrase_between(tokens: Seq<TextPair>, start: int, end: int) -> TextPair {
    (
        joined_readings(tokens.subrange(start, end)),
        joined_surfaces(tokens.subrange(start, end)),
    )
}

/// A window adds its phrase exactly if it makes one that was not collected before.
pub proof fn a_window_adds_its_own_phrase(
    state: PhraseView,
    tokens: Seq<TextPair>,
    suspicious: Seq<bool>,
    start: int,
    end: int,
)
    ensures
        ({
            let after = with_window(state, tokens, suspicious, start, end);
            let phrase = phrase_between(tokens, start, end);
            let key = pair_key_of(phrase.0, phrase.1);
            let adds = makes_a_phrase(tokens, suspicious, start, end) && !state.seen.contains(key);
            &&& adds ==> after.phrases == state.phrases.push(phrase) && after.seen
                == state.seen.insert(key)
            &&& !adds ==> after.phrases == state.phrases && after.seen == state.seen
            &&& after.stats.windows == more(state.stats.windows, 1)
        }),
{
}

/// Whether the phrase is that of two to six neighbouring tokens.
pub open spec fn is_from_window(
    phrase: TextPair,
    tokens: Seq<TextPair>,
    suspicious: Seq<bool>,
) -> bool {
    exists|start: int, end: int|
        0 <= start && start + 2 <= end <= start + 6 && end <= tokens.len() && #[trigger]
        makes_a_phrase(tokens, suspicious, start, end) && phrase == phrase_between(
            tokens,
            start,
            end,
        )
}

/// Whether what is collected behind `before` comes from windows of the tokens.
pub open spec fn adds_from_windows(
    before: PhraseView,
    after: PhraseView,
    tokens: Seq<TextPair>,
    suspicious: Seq<bool>,
) -> bool {
    &&& before.phrases.is_prefix_of(after.phrases)
    &&& before.seen.subset_of(after.seen)
    &&& forall|i: int|
        before.phrases.len() <= i < after.phrases.len() ==> is_from_window(
            #[trigger] after.phrases[i],
            tokens,
            suspicious,
        )
}

proof fn windows_add_up(
    first: PhraseView,
    second: PhraseView,
    third: PhraseView,
    tokens: Seq<TextPair>,
    suspicious: Seq<bool>,
)
    requires
        adds_from_windows(first, second, tokens, suspicious),
        adds_from_windows(second, third, tokens, suspicious),
    ensures
        adds_from_windows(first, third, tokens, suspicious),
{
    let (a, b, c) = (first.phrases, second.phrases, third.phrases);
    assert forall|i: int| 0 <= i < b.len() implies c[i] == b[i] by {
        assert(c.subrange(0, b.len() as int)[i] == c[i]);
    }
    assert forall|i: int| 0 <= i < a.len() implies b[i] == a[i] by {
        assert(b.subrange(0, a.len() as int)[i] == b[i]);
    }
    assert(c.subrange(0, a.len() as int) =~= a);
    assert forall|i: int| a.len() <= i < c.len() implies is_from_window(
        #[trigger] c[i],
        tokens,
        suspicious,
    ) by {
        if i < b.len() {
            assert(is_from_window(b[i], tokens, suspicious));
        }
    }
}

proof fn ends_collect_their_windows(
    state: PhraseView,
    tokens: Seq<TextPair>,
    suspicious: Seq<bool>,
    start: int,
    end: int,
)
    requires
        0 <= start,
        end <= tokens.len() + 1,
        end <= start + 7,
    ensures
        ({
            let after = with_ends(state, tokens, suspicious, start, end);
            &&& adds_from_windows(state, after, tokens, suspicious)
            &&& forall|stop: int|
                start + 2 <= stop < end && #[trigger] makes_a_phrase(tokens, suspicious, start, stop)
                    ==> after.seen.contains(
                    pair_key_of(
                        phrase_between(tokens, start, stop).0,
                        phrase_between(tokens, start, stop).1,
                    ),
                )
        }),
    decreases end - start,
{
    if end > start + 2 {
        let before = with_ends(state, tokens, suspicious, start, end - 1);
        let after = with_ends(state, tokens, suspicious, start, end);
        ends_collect_their_windows(state, tokens, suspicious, start, end - 1);
        a_window_adds_its_own_phrase(before, tokens, suspicious, start, end - 1);
        let phrase = phrase_between(tokens, start, end - 1);
        if after.phrases.len() > before.phrases.len() {
            assert(makes_a_phrase(tokens, suspicious, start, end - 1));
            assert(is_from_window(phrase, tokens, suspicious));
            assert(after.phrases.subrange(0, before.phrases.len() as int) =~= before.phrases);
        } else {
            assert(before.phrases.subrange(0, before.phrases.len() as int) =~= before.phrases);
        }
        assert(adds_from_windows(before, after, tokens, suspicious));
        windows_add_up(state, before, after, tokens, suspicious);
    } else {
        assert(state.phrases.subrange(0, state.phrases.len() as int) =~= state.phrases);
    }
}

/// What is collected of some tokens are phrases of two to six neighbouring tokens; and every window
/// of two to six tokens that makes a phrase is collected, unless it was before.
pub proof fn all_windows_are_collected(
    state: PhraseView,
    tokens: Seq<TextPair>,
    suspicious: Seq<bool>,
    count: int,
)
    requires
        0 <= count <= tokens.len(),
    ensures
        ({
            let after = with_starts(state, tokens, suspicious, count);
            &&& adds_from_windows(state, after, tokens, suspicious)
            &&& forall|start: int, stop: int|
                0 <= start < count && start + 2 <= stop <= start + 6 && stop <= tokens.len()
                    && #[trigger] makes_a_phrase(tokens, suspicious, start, stop)
                    ==> after.seen.contains(
                    pair_key_of(
                        phrase_between(tokens, start, stop).0,
                        phrase_between(tokens, start, stop).1,
                    ),
                )
        }),
    decreases count,
{
    if count > 0 {
        let before = with_starts(state, tokens, suspicious, count - 1);
        let after = with_starts(state, tokens, suspicious, count);
        let end = longest_end(count - 1, tokens.len() as int) + 1;
        all_windows_are_collected(state, tokens, suspicious, count - 1);
        ends_collect_their_windows(before, tokens, suspicious, count - 1, end);
        windows_add_up(state, before, after, tokens, suspicious);
    } else {
        assert(state.phrases.subrange(0, state.phrases.len() as int) =~= state.phrases);
    }
}

/// Whether the token lies in one of the runs.
pub open spec fn lies_in_a_run(runs: Seq<(int, int)>, token: int) -> bool {
    exists|i: int| 0 <= i < runs.len() && (#[trigger] runs[i]).0 <= token < runs[i].1
}

/// The runs are the longest ones of tokens with kana readings: a token lies in a run exactly if its
/// reading is kana, no run is empty, and the token behind a run has another reading.
pub proof fn runs_are_the_longest(tokens: Seq<TextPair>)
    ensures
        forall|k: int|
            0 <= k < tokens.len() ==> (is_kana_text((#[trigger] tokens[k]).1) <==> lies_in_a_run(
                runs_of(tokens),
                k,
            )),
        forall|i: int|
            0 <= i < runs_of(tokens).len() ==> {
                let run = #[trigger] runs_of(tokens)[i];
                &&& 0 <= run.0 < run.1 <= tokens.len()
                &&& run.1 < tokens.len() ==> !is_kana_text(tokens[run.1].1)
                &&& run.0 > 0 ==> !is_kana_text(tokens[run.0 - 1].1)
            },
{
    let length = tokens.len() as int;
    runs_are_scanned(tokens, length);
    let (complete, start) = scan_runs(tokens, length);
    let runs = runs_of(tokens);
    assert forall|k: int| 0 <= k < length implies (is_kana_text((#[trigger] tokens[k]).1)
        <==> lies_in_a_run(runs, k)) by {
        if k < start {
            if lies_in_a_run(complete, k) {
                let i = choose|i: int|
                    0 <= i < complete.len() && (#[trigger] complete[i]).0 <= k < complete[i].1;
                assert(runs[i] == complete[i]);
            }
            if lies_in_a_run(runs, k) {
                let i = choose|i: int|
                    0 <= i < runs.len() && (#[trigger] runs[i]).0 <= k < runs[i].1;
                assert(i < complete.len());
                assert(complete[i].0 <= k < complete[i].1);
            }
        } else {
            assert(runs[complete.len() as int].0 <= k < runs[complete.len() as int].1);
        }
    }
    assert forall|i: int| 0 <= i < runs.len() implies {
        let run = #[trigger] runs[i];
        &&& 0 <= run.0 < run.1 <= tokens.len()
        &&& run.1 < tokens.len() ==> !is_kana_text(tokens[run.1].1)
        &&& run.0 > 0 ==> !is_kana_text(tokens[run.0 - 1].1)
    } by {
        if i < complete.len() {
            assert(runs[i] == complete[i]);
        }
    }
}

proof fn runs_are_scanned(tokens: Seq<TextPair>, count: int)
    requires
        0 <= count <= tokens.len(),
    ensures
        ({
            let (complete, start) = scan_runs(tokens, count);
            &&& 0 <= start <= count
            &&& start > 0 ==> !is_kana_text(tokens[start - 1].1)
            &&& forall|k: int| start <= k < count ==> is_kana_text((#[trigger] tokens[k]).1)
            &&& forall|k: int|
                0 <= k < start ==> (is_kana_text((#[trigger] tokens[k]).1) <==> lies_in_a_run(
                    complete,
                    k,
                ))
            &&& forall|i: int|
                0 <= i < complete.len() ==> {
                    let run = #[trigger] complete[i];
                    &&& 0 <= run.0 < run.1 < start
                    &&& !is_kana_text(tokens[run.1].1)
                    &&& run.0 > 0 ==> !is_kana_text(tokens[run.0 - 1].1)
                }
        }),
    decreases count,
{
    if count > 0 {
        runs_are_scanned(tokens, count - 1);
        let (before, start) = scan_runs(tokens, count - 1);
        let (complete, next) = scan_runs(tokens, count);
        if !is_kana_text(tokens[count - 1].1) {
            assert forall|k: int| 0 <= k < next implies (is_kana_text((#[trigger] tokens[k]).1)
                <==> lies_in_a_run(complete, k)) by {
                if k < start && lies_in_a_run(before, k) {
                    let i = choose|i: int|
                        0 <= i < before.len() && (#[trigger] before[i]).0 <= k < before[i].1;
                    assert(complete[i] == before[i]);
                }
                if start <= k < count - 1 {
                    assert(complete[before.len() as int].0 <= k < complete[before.len() as int].1);
                }
                if lies_in_a_run(complete, k) {
                    let i = choose|i: int|
                        0 <= i < complete.len() && (#[trigger] complete[i]).0 <= k < complete[i].1;
                    if i < before.len() {
                        assert(before[i].0 <= k < before[i].1);
                    }
                }
            }
            assert forall|i: int| 0 <= i < complete.len() implies {
                let run = #[trigger] complete[i];
                &&& 0 <= run.0 < run.1 < next
                &&& !is_kana_text(tokens[run.1].1)
                &&& run.0 > 0 ==> !is_kana_text(tokens[run.0 - 1].1)
            } by {
                if i < before.len() {
                    assert(complete[i] == before[i]);
                }
            }
        }
    }
}

} // verus!
