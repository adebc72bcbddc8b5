//! Items to evaluate conversions with, and how well they are converted.

use vstd::prelude::*;
use vstd::string::*;

use crate::candidate::{first_expected, first_expected_is_the_first, position_of_expected};
use crate::corpus::{line_tokens, pairs, parse_annotated_corpus_line, TextPair};
use crate::edit::{distance, edit_distance};
use crate::evaluation_options::{optional_text, ContextFilter, DatasetFormat};
use crate::kana::{
    hiragana_text_with_marks, katakana_to_hiragana_with_marks, same_code_same_character, shifted,
};
use crate::primitives::is_scalar_value;
use crate::text::{
    character_count, characters, count_text, decimal, joined, lines, lines_of, texts, trim,
    trimmed,
};

verus! {

/// A reading in its context, with the surfaces that are right for it.
#[derive(Debug, PartialEq, Eq)]
pub struct AjimeeItem {
    pub source_split: Option<String>,
    pub index: String,
    pub context_text: String,
    pub right_context_text: String,
    pub input: String,
    pub expected_output: Vec<String>,
}

/// The mathematical value of an item.
pub ghost struct ItemView {
    pub source_split: Option<Seq<char>>,
    pub index: Seq<char>,
    pub context_text: Seq<char>,
    pub right_context_text: Seq<char>,
    pub input: Seq<char>,
    pub expected_output: Seq<Seq<char>>,
}

impl View for AjimeeItem {
    type V = ItemView;

    open spec fn view(&self) -> ItemView {
        ItemView {
            source_split: optional_text(self.source_split),
            index: self.index@,
            context_text: self.context_text@,
            right_context_text: self.right_context_text@,
            input: self.input@,
            expected_output: texts(self.expected_output@),
        }
    }
}

/// The mathematical values of some items.
pub open spec fn item_views(items: Seq<AjimeeItem>) -> Seq<ItemView> {
    Seq::new(items.len(), |i: int| items[i]@)
}

/// An item without context that has one right surface.
pub open spec fn plain_item(index: Seq<char>, input: Seq<char>, expected: Seq<char>) -> ItemView {
    ItemView {
        source_split: None,
        index,
        context_text: Seq::empty(),
        right_context_text: Seq::empty(),
        input,
        expected_output: seq![expected],
    }
}

fn new_item(index: String, input: String, expected: String) -> (result: AjimeeItem)
    ensures
        result@ == plain_item(index@, input@, expected@),
{
    let mut expected_output: Vec<String> = Vec::new();
    let ghost view = expected@;
    expected_output.push(expected);
    assert(texts(expected_output@) =~= seq![view]);
    AjimeeItem {
        source_split: None,
        index,
        context_text: String::new(),
        right_context_text: String::new(),
        input,
        expected_output,
    }
}

// ---------------------------------------------------------------------------
// Corpora as items
// ---------------------------------------------------------------------------

/// Where a line stands: the path, a colon and the number of the line.
pub open spec fn line_place(path: Seq<char>, number: nat) -> Seq<char> {
    path + ":"@ + decimal(number)
}

fn place_of_line(path: &str, number: usize) -> (result: String)
    ensures
        result@ == line_place(path@, number as nat),
{
    let start: String = joined(path, ":");
    let digits: String = count_text(number);
    joined(start.as_str(), digits.as_str())
}

/// An error with the place of its line before it.
pub open spec fn line_error(path: Seq<char>, number: nat, error: Seq<char>) -> Seq<char> {
    line_place(path, number) + ": "@ + error
}

fn error_at_line(path: &str, number: usize, error: &str) -> (result: String)
    ensures
        result@ == line_error(path@, number as nat, error@),
{
    let place: String = place_of_line(path, number);
    let start: String = joined(place.as_str(), ": ");
    joined(start.as_str(), error)
}

/// The text without its bars.
pub open spec fn without_bars(text: Seq<char>) -> Seq<char>
    decreases text.len(),
{
    if text.len() == 0 {
        Seq::empty()
    } else if text.last() == '|' {
        without_bars(text.drop_last())
    } else {
        without_bars(text.drop_last()).push(text.last())
    }
}

fn text_without_bars(letters: &[char], start: usize, end: usize) -> (result: String)
    requires
        start <= end <= letters@.len(),
    ensures
        result@ == without_bars(letters@.subrange(start as int, end as int)),
{
    let mut result: String = String::new();
    for index in start..end
        invariant
            start <= end <= letters@.len(),
            result@ == without_bars(letters@.subrange(start as int, index as int)),
    {
        let ghost longer = letters@.subrange(start as int, index + 1);
        assert(longer.drop_last() =~= letters@.subrange(start as int, index as int));
        if letters[index] != '|' {
            result.push(letters[index]);
        }
    }
    result
}

/// Whether the separator of reading and surface stands at the place.
pub open spec fn separator_at(line: Seq<char>, place: int) -> bool {
    0 <= place && place + 3 <= line.len() && line[place] == '|' && line[place + 1] == ' '
        && line[place + 2] == '|'
}

/// The place of the first separator from `index` on.
pub open spec fn separator_from(line: Seq<char>, index: int) -> Option<int>
    decreases line.len() - index,
{
    if index < 0 || index + 3 > line.len() {
        None
    } else if separator_at(line, index) {
        Some(index)
    } else {
        separator_from(line, index + 1)
    }
}

/// The reading and the surface of a line of the Anthy corpus.
pub open spec fn anthy_line(line: Seq<char>) -> Result<TextPair, Seq<char>> {
    match separator_from(line, 0) {
        None => Err("expected a '| |' separator between reading and surface"@),
        Some(place) => {
            let reading = without_bars(line.take(place));
            let surface = without_bars(line.skip(place + 3));
            if reading.len() == 0 || surface.len() == 0 {
                Err("reading and surface must not be empty"@)
            } else {
                Ok((reading, surface))
            }
        },
    }
}

pub fn parse_anthy_line(line: &str) -> (result: Result<(String, String), String>)
    ensures
        match anthy_line(line@) {
            Ok(pair) => result is Ok && (result->Ok_0.0@, result->Ok_0.1@) == pair,
            Err(error) => result is Err && result->Err_0@ == error,
        },
{
    let letters: Vec<char> = characters(line);
    let count: usize = letters.len();
    let mut index: usize = 0;
    while index < count && count - index >= 3 && !(letters[index] == '|' && letters[index + 1]
        == ' ' && letters[index + 2] == '|')
        invariant
            letters@ == line@,
            count == line@.len(),
            index <= count,
            separator_from(line@, index as int) == separator_from(line@, 0),
        decreases count - index,
    {
        index += 1;
    }
    if index >= count || count - index < 3 {
        return Err("expected a '| |' separator between reading and surface".to_owned());
    }
    assert(separator_from(line@, 0) == Some(index as int));
    let reading: String = text_without_bars(letters.as_slice(), 0, index);
    let surface: String = text_without_bars(letters.as_slice(), index + 3, count);
    assert(line@.subrange(0, index as int) =~= line@.take(index as int));
    assert(line@.subrange(index + 3, count as int) =~= line@.skip(index + 3));
    if reading.as_str().is_empty() || surface.as_str().is_empty() {
        Err("reading and surface must not be empty".to_owned())
    } else {
        Ok((reading, surface))
    }
}

/// The items of the first `count` lines of an Anthy corpus file.
pub open spec fn anthy_items(path: Seq<char>, rows: Seq<Seq<char>>, count: int) -> Result<
    Seq<ItemView>,
    Seq<char>,
>
    decreases count,
{
    if count <= 0 {
        Ok(Seq::empty())
    } else {
        match anthy_items(path, rows, count - 1) {
            Err(error) => Err(error),
            Ok(items) => {
                let line = trim(rows[count - 1]);
                if line.len() == 0 || line[0] == '#' {
                    Ok(items)
                } else {
                    match anthy_line(line) {
                        Err(error) => Err(line_error(path, count as nat, error)),
                        Ok(pair) => Ok(
                            items.push(plain_item(line_place(path, count as nat), pair.0, pair.1)),
                        ),
                    }
                }
            },
        }
    }
}

proof fn anthy_error_stays(path: Seq<char>, rows: Seq<Seq<char>>, low: int, high: int)
    requires
        anthy_items(path, rows, low) is Err,
        0 <= low <= high,
    ensures
        anthy_items(path, rows, high) == anthy_items(path, rows, low),
    decreases high - low,
{
    if low < high {
        anthy_error_stays(path, rows, low, high - 1);
    }
}

/// Whether a text starts with a number sign.
fn is_comment(line: &str) -> (result: bool)
    ensures
        result == (line@.len() > 0 && line@[0] == '#'),
{
    let letters: Vec<char> = characters(line);
    letters.len() > 0 && letters[0] == '#'
}

/// The items of an Anthy corpus file.
pub fn load_anthy_items(path: &str, source: &str) -> (result: Result<Vec<AjimeeItem>, String>)
    ensures
        match anthy_items(path@, lines(source@), lines(source@).len() as int) {
            Ok(items) => result is Ok && item_views(result->Ok_0@) == items,
            Err(error) => result is Err && result->Err_0@ == error,
        },
{
    let rows: Vec<String> = lines_of(source);
    let ghost all = lines(source@);
    let mut result: Vec<AjimeeItem> = Vec::new();
    assert(item_views(result@) =~= Seq::<ItemView>::empty());
    for index in 0..rows.len()
        invariant
            all == texts(rows@),
            all == lines(source@),
            anthy_items(path@, all, index as int) == Ok::<Seq<ItemView>, Seq<char>>(
                item_views(result@),
            ),
    {
        assert(all[index as int] == rows@[index as int]@);
        let line: String = trimmed(rows[index].as_str());
        if !line.as_str().is_empty() && !is_comment(line.as_str()) {
            match parse_anthy_line(line.as_str()) {
                Ok(pair) => {
                    let ghost before = item_views(result@);
                    let item: AjimeeItem = new_item(place_of_line(path, index + 1), pair.0, pair.1);
                    let ghost view = item@;
                    result.push(item);
                    assert(item_views(result@) =~= before.push(view));
                },
                Err(error) => {
                    proof {
                        anthy_error_stays(path@, all, index + 1, all.len() as int);
                    }
                    return Err(error_at_line(path, index + 1, error.as_str()));
                },
            }
        }
    }
    Ok(result)
}

/// The readings of the tokens, one behind the other.
pub open spec fn joined_readings(tokens: Seq<TextPair>) -> Seq<char>
    decreases tokens.len(),
{
    if tokens.len() == 0 {
        Seq::empty()
    } else {
        joined_readings(tokens.drop_last()) + tokens.last().1
    }
}

/// The surfaces of the tokens, one behind the other.
pub open spec fn joined_surfaces(tokens: Seq<TextPair>) -> Seq<char>
    decreases tokens.len(),
{
    if tokens.len() == 0 {
        Seq::empty()
    } else {
        joined_surfaces(tokens.drop_last()) + tokens.last().0
    }
}

pub(crate) fn join_tokens(tokens: &[(String, String)]) -> (result: (String, String))
    ensures
        result.0@ == joined_surfaces(pairs(tokens@)),
        result.1@ == joined_readings(pairs(tokens@)),
{
    let mut surface: String = String::new();
    let mut reading: String = String::new();
    let ghost all = pairs(tokens@);
    assert(all.take(0) =~= Seq::<TextPair>::empty());
    for index in 0..tokens.len()
        invariant
            all == pairs(tokens@),
            surface@ == joined_surfaces(all.take(index as int)),
            reading@ == joined_readings(all.take(index as int)),
    {
        assert(all.take(index + 1).drop_last() =~= all.take(index as int));
        surface.append(tokens[index].0.as_str());
        reading.append(tokens[index].1.as_str());
    }
    assert(all.take(all.len() as int) =~= all);
    (surface, reading)
}

/// The items of the first `count` lines of an annotated corpus file.
pub open spec fn annotated_items(path: Seq<char>, rows: Seq<Seq<char>>, count: int) -> Result<
    Seq<ItemView>,
    Seq<char>,
>
    decreases count,
{
    if count <= 0 {
        Ok(Seq::empty())
    } else {
        match annotated_items(path, rows, count - 1) {
            Err(error) => Err(error),
            Ok(items) => match line_tokens(rows[count - 1]) {
                Err(error) => Err(line_error(path, count as nat, error)),
                Ok(tokens) => if tokens.len() == 0 {
                    Ok(items)
                } else {
                    Ok(
                        items.push(
                            plain_item(
                                line_place(path, count as nat),
                                joined_readings(tokens),
                                joined_surfaces(tokens),
                            ),
                        ),
                    )
                },
            },
        }
    }
}

proof fn annotated_error_stays(path: Seq<char>, rows: Seq<Seq<char>>, low: int, high: int)
    requires
        annotated_items(path, rows, low) is Err,
        0 <= low <= high,
    ensures
        annotated_items(path, rows, high) == annotated_items(path, rows, low),
    decreases high - low,
{
    if low < high {
        annotated_error_stays(path, rows, low, high - 1);
    }
}

/// The items of an annotated corpus file: one for each line that holds tokens.
pub fn load_annotated_items(path: &str, source: &str) -> (result: Result<Vec<AjimeeItem>, String>)
    ensures
        match annotated_items(path@, lines(source@), lines(source@).len() as int) {
            Ok(items) => result is Ok && item_views(result->Ok_0@) == items,
            Err(error) => result is Err && result->Err_0@ == error,
        },
{
    let rows: Vec<String> = lines_of(source);
    let ghost all = lines(source@);
    let mut result: Vec<AjimeeItem> = Vec::new();
    assert(item_views(result@) =~= Seq::<ItemView>::empty());
    for index in 0..rows.len()
        invariant
            all == texts(rows@),
            all == lines(source@),
            annotated_items(path@, all, index as int) == Ok::<Seq<ItemView>, Seq<char>>(
                item_views(result@),
            ),
    {
        assert(all[index as int] == rows@[index as int]@);
        match parse_annotated_corpus_line(rows[index].as_str()) {
            Ok(tokens) => {
                if tokens.len() > 0 {
                    let ghost before = item_views(result@);
                    let (surface, reading) = join_tokens(tokens.as_slice());
                    let item: AjimeeItem = new_item(
                        place_of_line(path, index + 1),
                        reading,
                        surface,
                    );
                    let ghost view = item@;
                    result.push(item);
                    assert(item_views(result@) =~= before.push(view));
                }
            },
            Err(error) => {
                proof {
                    annotated_error_stays(path@, all, index + 1, all.len() as int);
                }
                return Err(error_at_line(path, index + 1, error.as_str()));
            },
        }
    }
    Ok(result)
}

// ---------------------------------------------------------------------------
// Selection
// ---------------------------------------------------------------------------

/// The numbers of those of the first `count` items that the filter takes, at most `limit`.
pub open spec fn taken(items: Seq<ItemView>, filter: ContextFilter, limit: int, count: int) -> Seq<
    int,
>
    decreases count,
{
    if count <= 0 {
        Seq::empty()
    } else {
        let before = taken(items, filter, limit, count - 1);
        if before.len() < limit && filter.takes(items[count - 1].context_text) {
            before.push(count - 1)
        } else {
            before
        }
    }
}

/// The numbers of the items to evaluate.
pub fn select_items(items: &[AjimeeItem], filter: ContextFilter, limit: Option<usize>) -> (result:
    Result<Vec<usize>, String>)
    ensures
        ({
            let owed = taken(
                item_views(items@),
                filter,
                match limit {
                    Some(limit) => limit as int,
                    None => usize::MAX as int,
                },
                items@.len() as int,
            );
            &&& result is Ok <==> owed.len() > 0
            &&& result matches Ok(places) ==> places@.map_values(|place: usize| place as int)
                == owed && forall|i: int|
                0 <= i < places@.len() ==> #[trigger] places@[i] < items@.len()
            &&& result matches Err(error) ==> error@
                == "no evaluation items matched the selected filters"@
        }),
{
    let most: usize = match limit {
        Some(limit) => limit,
        None => usize::MAX,
    };
    let ghost all = item_views(items@);
    let mut result: Vec<usize> = Vec::new();
    assert(result@.map_values(|place: usize| place as int) =~= Seq::<int>::empty());
    for index in 0..items.len()
        invariant
            all == item_views(items@),
            result@.map_values(|place: usize| place as int) == taken(
                all,
                filter,
                most as int,
                index as int,
            ),
            forall|i: int| 0 <= i < result@.len() ==> #[trigger] result@[i] < items@.len(),
    {
        assert(all[index as int] == items@[index as int]@);
        assert(result@.len() == taken(all, filter, most as int, index as int).len());
        if result.len() < most && filter.includes(items[index].context_text.as_str()) {
            let ghost before = result@.map_values(|place: usize| place as int);
            result.push(index);
            assert(result@.map_values(|place: usize| place as int) =~= before.push(index as int));
        }
    }
    assert(result@.len() == taken(all, filter, most as int, items@.len() as int).len());
    if result.len() == 0 {
        Err("no evaluation items matched the selected filters".to_owned())
    } else {
        Ok(result)
    }
}

/// The first item, by its number, that has no expected output.
pub open spec fn unexpected_from(items: Seq<ItemView>, index: int) -> Option<int>
    decreases items.len() - index,
{
    if index < 0 || index >= items.len() {
        None
    } else if items[index].expected_output.len() == 0 {
        Some(index)
    } else {
        unexpected_from(items, index + 1)
    }
}

/// Items without expected output cannot be evaluated.
pub fn check_expected(items: &[AjimeeItem]) -> (result: Result<(), String>)
    ensures
        match unexpected_from(item_views(items@), 0) {
            None => result is Ok,
            Some(place) => result is Err && result->Err_0@ == "item "@ + item_views(
                items@,
            )[place].index + " has no expected output"@,
        },
{
    let ghost all = item_views(items@);
    for index in 0..items.len()
        invariant
            all == item_views(items@),
            unexpected_from(all, index as int) == unexpected_from(all, 0),
    {
        assert(all[index as int] == items@[index as int]@);
        if items[index].expected_output.len() == 0 {
            let start: String = joined("item ", items[index].index.as_str());
            return Err(joined(start.as_str(), " has no expected output"));
        }
    }
    Ok(())
}

/// The reading of an item: its input as hiragana.
pub fn katakana_to_hiragana(input: &str) -> (result: String)
    ensures
        result@ == hiragana_text_with_marks(input@),
{
    katakana_to_hiragana_with_marks(input)
}

// ---------------------------------------------------------------------------
// Scores
// ---------------------------------------------------------------------------

/// The ASCII digit of a full-width digit; every other character as it is.
pub open spec fn narrow_digit(character: char) -> char {
    if '０' <= character <= '９' {
        shifted(character, -0xFEE0)
    } else {
        character
    }
}

/// A surface as it is compared: the Anthy corpus does not tell full-width digits from others.
pub open spec fn normalized(value: Seq<char>, format: DatasetFormat) -> Seq<char> {
    match format {
        DatasetFormat::Anthy => value.map_values(|character: char| narrow_digit(character)),
        _ => value,
    }
}

fn narrow(character: char) -> (result: char)
    ensures
        result == narrow_digit(character),
{
    if '０' <= character && character <= '９' {
        let code: u32 = character as u32 - 0xFEE0;
        assert(is_scalar_value(code));
        assert(shifted(character, -0xFEE0) as u32 == code);
        match char::from_u32(code) {
            Some(result) => {
                proof {
                    same_code_same_character(result, shifted(character, -0xFEE0));
                }
                result
            },
            None => character,
        }
    } else {
        character
    }
}

pub fn normalize_for_evaluation(value: &str, format: DatasetFormat) -> (result: String)
    ensures
        result@ == normalized(value@, format),
{
    if format != DatasetFormat::Anthy {
        return value.to_owned();
    }
    let letters: Vec<char> = characters(value);
    let mut result: String = String::new();
    let ghost owed = normalized(value@, format);
    for index in 0..letters.len()
        invariant
            format == DatasetFormat::Anthy,
            letters@ == value@,
            owed == normalized(value@, format),
            result@ == owed.take(index as int),
    {
        result.push(narrow(letters[index]));
        assert(result@ =~= owed.take(index + 1));
    }
    assert(result@ =~= owed);
    result
}

/// The surfaces as they are compared.
pub open spec fn all_normalized(values: Seq<Seq<char>>, format: DatasetFormat) -> Seq<Seq<char>> {
    Seq::new(values.len(), |i: int| normalized(values[i], format))
}

fn normalize_all(values: &[String], format: DatasetFormat) -> (result: Vec<String>)
    ensures
        texts(result@) == all_normalized(texts(values@), format),
{
    let mut result: Vec<String> = Vec::new();
    let ghost owed = all_normalized(texts(values@), format);
    assert(texts(result@) =~= owed.take(0));
    for index in 0..values.len()
        invariant
            owed == all_normalized(texts(values@), format),
            texts(result@) == owed.take(index as int),
    {
        let ghost before = texts(result@);
        result.push(normalize_for_evaluation(values[index].as_str(), format));
        assert(texts(result@) =~= before.push(owed[index as int]));
        assert(texts(result@) =~= owed.take(index + 1));
    }
    assert(texts(result@) =~= owed);
    result
}

/// A share of wrong characters: the edits over the characters. With no characters it is
/// infinite.
#[derive(Clone, Copy, Debug, PartialEq, Eq, Structural)]
pub struct ErrorRate {
    pub edits: usize,
    pub characters: usize,
}

/// Whether the first share is smaller than the second.
pub open spec fn smaller_rate(left: ErrorRate, right: ErrorRate) -> bool {
    left.edits * right.characters < right.edits * left.characters
}

/// The share of characters of the reference that the hypothesis gets wrong.
pub open spec fn error_rate(reference: Seq<char>, hypothesis: Seq<char>) -> ErrorRate {
    if reference.len() > 0 {
        ErrorRate {
            edits: distance(reference, hypothesis) as usize,
            characters: reference.len() as usize,
        }
    } else if hypothesis.len() == 0 {
        ErrorRate { edits: 0, characters: 1 }
    } else {
        ErrorRate { edits: 1, characters: 0 }
    }
}

pub fn character_error_rate(reference: &str, hypothesis: &str) -> (result: ErrorRate)
    ensures
        result == error_rate(reference@, hypothesis@),
{
    let count: usize = character_count(reference);
    if count > 0 {
        ErrorRate { edits: edit_distance(reference, hypothesis), characters: count }
    } else if hypothesis.is_empty() {
        ErrorRate { edits: 0, characters: 1 }
    } else {
        ErrorRate { edits: 1, characters: 0 }
    }
}

fn is_smaller(left: ErrorRate, right: ErrorRate) -> (result: bool)
    ensures
        result == smaller_rate(left, right),
{
    assert(left.edits * right.characters <= u64::MAX * u64::MAX) by (nonlinear_arith)
        requires
            0 <= left.edits <= u64::MAX,
            0 <= right.characters <= u64::MAX,
    ;
    assert(right.edits * left.characters <= u64::MAX * u64::MAX) by (nonlinear_arith)
        requires
            0 <= right.edits <= u64::MAX,
            0 <= left.characters <= u64::MAX,
    ;
    (left.edits as u128) * (right.characters as u128) < (right.edits as u128) * (
    left.characters as u128)
}

/// The smallest share of the references, the first of equal ones; one if there is none.
pub open spec fn least_rate(references: Seq<Seq<char>>, hypothesis: Seq<char>) -> ErrorRate
    decreases references.len(),
{
    if references.len() == 0 {
        ErrorRate { edits: 1, characters: 1 }
    } else if references.len() == 1 {
        error_rate(references[0], hypothesis)
    } else {
        let before = least_rate(references.drop_last(), hypothesis);
        let next = error_rate(references.last(), hypothesis);
        if smaller_rate(next, before) {
            next
        } else {
            before
        }
    }
}

/// The share of the reference that fits best.
pub fn minimum_cer(references: &[String], hypothesis: &str) -> (result: ErrorRate)
    ensures
        result == least_rate(texts(references@), hypothesis@),
{
    if references.len() == 0 {
        return ErrorRate { edits: 1, characters: 1 };
    }
    let ghost all = texts(references@);
    let mut result: ErrorRate = character_error_rate(references[0].as_str(), hypothesis);
    assert(all.take(1)[0] == references@[0]@);
    for index in 1..references.len()
        invariant
            references@.len() > 0,
            all == texts(references@),
            result == least_rate(all.take(index as int), hypothesis@),
    {
        assert(all.take(index + 1).drop_last() =~= all.take(index as int));
        assert(all.take(index + 1).last() == references@[index as int]@);
        let next: ErrorRate = character_error_rate(references[index].as_str(), hypothesis);
        if is_smaller(next, result) {
            result = next;
        }
    }
    assert(all.take(all.len() as int) =~= all);
    result
}

/// The smallest share of any candidate, the first of equal ones; one if there is none.
pub open spec fn least_rate_of_any(candidates: Seq<Seq<char>>, references: Seq<Seq<char>>) -> ErrorRate
    decreases candidates.len(),
{
    if candidates.len() == 0 {
        ErrorRate { edits: 1, characters: 1 }
    } else if candidates.len() == 1 {
        least_rate(references, candidates[0])
    } else {
        let before = least_rate_of_any(candidates.drop_last(), references);
        let next = least_rate(references, candidates.last());
        if smaller_rate(next, before) {
            next
        } else {
            before
        }
    }
}

fn minimum_of_any(candidates: &[String], references: &[String]) -> (result: ErrorRate)
    ensures
        result == least_rate_of_any(texts(candidates@), texts(references@)),
{
    if candidates.len() == 0 {
        return ErrorRate { edits: 1, characters: 1 };
    }
    let ghost all = texts(candidates@);
    let mut result: ErrorRate = minimum_cer(references, candidates[0].as_str());
    assert(all.take(1)[0] == candidates@[0]@);
    for index in 1..candidates.len()
        invariant
            candidates@.len() > 0,
            all == texts(candidates@),
            result == least_rate_of_any(all.take(index as int), texts(references@)),
    {
        assert(all.take(index + 1).drop_last() =~= all.take(index as int));
        assert(all.take(index + 1).last() == candidates@[index as int]@);
        let next: ErrorRate = minimum_cer(references, candidates[index].as_str());
        if is_smaller(next, result) {
            result = next;
        }
    }
    assert(all.take(all.len() as int) =~= all);
    result
}

/// How well an item was converted: the place of the first right candidate, the share of wrong
/// characters of the first candidate, and the smallest share of any candidate.
#[derive(Clone, Copy, Debug, PartialEq, Eq, Structural)]
pub struct ItemScore {
    pub rank: Option<usize>,
    pub error_at_1: ErrorRate,
    pub error_at_k: ErrorRate,
}

/// The score of an item.
pub open spec fn item_score(
    candidates: Seq<Seq<char>>,
    expected: Seq<Seq<char>>,
    format: DatasetFormat,
) -> ItemScore {
    let found = all_normalized(candidates, format);
    let right = all_normalized(expected, format);
    ItemScore {
        rank: match first_expected(found, right) {
            Some(place) => Some(place as usize),
            None => None,
        },
        error_at_1: if found.len() == 0 {
            ErrorRate { edits: 1, characters: 1 }
        } else {
            least_rate(right, found[0])
        },
        error_at_k: least_rate_of_any(found, right),
    }
}

pub fn score_item(candidates: &[String], expected: &[String], format: DatasetFormat) -> (result:
    ItemScore)
    ensures
        result == item_score(texts(candidates@), texts(expected@), format),
{
    let found: Vec<String> = normalize_all(candidates, format);
    let right: Vec<String> = normalize_all(expected, format);
    let error_at_1: ErrorRate = if found.len() == 0 {
        ErrorRate { edits: 1, characters: 1 }
    } else {
        assert(texts(found@)[0] == found@[0]@);
        minimum_cer(right.as_slice(), found[0].as_str())
    };
    ItemScore {
        rank: position_of_expected(found.as_slice(), right.as_slice()),
        error_at_1,
        error_at_k: minimum_of_any(found.as_slice(), right.as_slice()),
    }
}

/// A right first candidate has no wrong characters.
pub proof fn a_right_candidate_has_no_errors(reference: Seq<char>)
    ensures
        error_rate(reference, reference).edits == 0,
        error_rate(reference, reference).characters > 0 || reference.len() > usize::MAX,
{
    crate::edit::distance_is_zero_only_between_equal_texts(reference, reference);
}

proof fn a_smaller_rate_is_no_greater_than_others(
    other: ErrorRate,
    before: ErrorRate,
    next: ErrorRate,
)
    requires
        smaller_rate(next, before),
        !smaller_rate(other, before),
    ensures
        !smaller_rate(other, next),
{
    let (x, y): (int, int) = (other.edits as int, other.characters as int);
    let (b, c): (int, int) = (before.edits as int, before.characters as int);
    let (n, m): (int, int) = (next.edits as int, next.characters as int);
    assert(x * m >= n * y) by (nonlinear_arith)
        requires
            0 <= x,
            0 <= y,
            0 <= b,
            0 <= c,
            0 <= n,
            0 <= m,
            n * c < b * m,
            x * c >= b * y,
    {
        assert(b > 0 && m > 0) by (nonlinear_arith)
            requires
                0 <= b,
                0 <= m,
                0 <= n,
                0 <= c,
                n * c < b * m,
        ;
        if c == 0 {
            assert(x * c == 0) by (nonlinear_arith)
                requires
                    c == 0,
            ;
            assert(y == 0) by (nonlinear_arith)
                requires
                    0 >= b * y,
                    b > 0,
                    y >= 0,
            ;
            assert(n * y == 0) by (nonlinear_arith)
                requires
                    y == 0,
            ;
            assert(x * m >= 0) by (nonlinear_arith)
                requires
                    x >= 0,
                    m >= 0,
            ;
        } else {
            assert((x * c) * m >= (b * y) * m) by (nonlinear_arith)
                requires
                    x * c >= b * y,
                    m > 0,
            ;
            assert((b * m) * y >= (n * c) * y) by (nonlinear_arith)
                requires
                    n * c < b * m,
                    y >= 0,
            ;
            assert((x * c) * m == (x * m) * c) by (nonlinear_arith);
            assert((b * y) * m == (b * m) * y) by (nonlinear_arith);
            assert((n * c) * y == (n * y) * c) by (nonlinear_arith);
            assert(x * m >= n * y) by (nonlinear_arith)
                requires
                    (x * m) * c >= (n * y) * c,
                    c > 0,
            ;
        }
    }
}

/// No reference fits better than the one that is taken.
pub proof fn no_reference_fits_better(
    references: Seq<Seq<char>>,
    hypothesis: Seq<char>,
    index: int,
)
    requires
        0 <= index < references.len(),
    ensures
        !smaller_rate(
            error_rate(references[index], hypothesis),
            least_rate(references, hypothesis),
        ),
    decreases references.len(),
{
    if references.len() > 1 && index < references.len() - 1 {
        let shorter = references.drop_last();
        no_reference_fits_better(shorter, hypothesis, index);
        let before = least_rate(shorter, hypothesis);
        let next = error_rate(references.last(), hypothesis);
        if smaller_rate(next, before) {
            a_smaller_rate_is_no_greater_than_others(
                error_rate(references[index], hypothesis),
                before,
                next,
            );
        }
    }
}

/// The smallest share of all candidates is no greater than that of any of them.
pub proof fn no_candidate_has_fewer_errors(
    candidates: Seq<Seq<char>>,
    references: Seq<Seq<char>>,
    index: int,
)
    requires
        0 <= index < candidates.len(),
    ensures
        !smaller_rate(
            least_rate(references, candidates[index]),
            least_rate_of_any(candidates, references),
        ),
    decreases candidates.len(),
{
    if candidates.len() > 1 && index < candidates.len() - 1 {
        let shorter = candidates.drop_last();
        no_candidate_has_fewer_errors(shorter, references, index);
        let before = least_rate_of_any(shorter, references);
        let next = least_rate(references, candidates.last());
        if smaller_rate(next, before) {
            a_smaller_rate_is_no_greater_than_others(
                least_rate(references, candidates[index]),
                before,
                next,
            );
        }
    }
}

/// All candidates of an item together have no greater share of wrong characters than its first
/// candidate.
pub proof fn more_candidates_have_no_more_errors(
    candidates: Seq<Seq<char>>,
    expected: Seq<Seq<char>>,
    format: DatasetFormat,
)
    ensures
        !smaller_rate(
            item_score(candidates, expected, format).error_at_1,
            item_score(candidates, expected, format).error_at_k,
        ),
{
    let found = all_normalized(candidates, format);
    let right = all_normalized(expected, format);
    if found.len() > 0 {
        no_candidate_has_fewer_errors(found, right, 0);
    }
}

proof fn an_expected_text_has_no_errors(references: Seq<Seq<char>>, hypothesis: Seq<char>)
    requires
        references.contains(hypothesis),
        hypothesis.len() <= usize::MAX,
    ensures
        least_rate(references, hypothesis).edits == 0,
{
    let index = choose|i: int| 0 <= i < references.len() && references[i] == hypothesis;
    no_reference_fits_better(references, hypothesis, index);
    a_right_candidate_has_no_errors(hypothesis);
    let zero = error_rate(hypothesis, hypothesis);
    let least = least_rate(references, hypothesis);
    assert(least.edits == 0) by (nonlinear_arith)
        requires
            zero.edits == 0,
            zero.characters > 0,
            least.edits >= 0,
            !(zero.edits * least.characters < least.edits * zero.characters),
    ;
}

/// An item whose first candidate is right has no wrong characters there; an item with a right
/// candidate anywhere has none among all candidates.
pub proof fn right_candidates_have_no_errors(
    candidates: Seq<Seq<char>>,
    expected: Seq<Seq<char>>,
    format: DatasetFormat,
)
    requires
        candidates.len() <= usize::MAX,
        forall|i: int| 0 <= i < candidates.len() ==> (#[trigger] candidates[i]).len() <= usize::MAX,
        forall|i: int| 0 <= i < expected.len() ==> (#[trigger] expected[i]).len() <= usize::MAX,
    ensures
        item_score(candidates, expected, format).rank == Some(0usize) ==> item_score(
            candidates,
            expected,
            format,
        ).error_at_1.edits == 0,
        item_score(candidates, expected, format).rank is Some ==> item_score(
            candidates,
            expected,
            format,
        ).error_at_k.edits == 0,
{
    let found = all_normalized(candidates, format);
    let right = all_normalized(expected, format);
    first_expected_is_the_first(found, right);
    if let Some(place) = first_expected(found, right) {
        assert(found[place].len() == candidates[place].len());
        an_expected_text_has_no_errors(right, found[place]);
        no_candidate_has_fewer_errors(found, right, place);
        let own = least_rate(right, found[place]);
        let all = least_rate_of_any(found, right);
        assert forall|i: int| 0 <= i < right.len() implies (#[trigger] right[i]).len()
            <= usize::MAX by {
            assert(right[i].len() == expected[i].len());
        }
        a_least_rate_is_a_share(right, found[place]);
        assert(all.edits == 0) by (nonlinear_arith)
            requires
                own.edits == 0,
                own.characters > 0,
                all.edits >= 0,
                !(own.edits * all.characters < all.edits * own.characters),
        ;
    }
}

proof fn a_least_rate_is_a_share(references: Seq<Seq<char>>, hypothesis: Seq<char>)
    requires
        forall|i: int| 0 <= i < references.len() ==> (#[trigger] references[i]).len() <= usize::MAX,
    ensures
        least_rate(references, hypothesis).edits > 0 || least_rate(
            references,
            hypothesis,
        ).characters > 0,
    decreases references.len(),
{
    if references.len() > 0 {
        assert(references[references.len() - 1].len() <= usize::MAX);
        if references.len() > 1 {
            let shorter = references.drop_last();
            assert forall|i: int| 0 <= i < shorter.len() implies (#[trigger] shorter[i]).len()
                <= usize::MAX by {
                assert(shorter[i] == references[i]);
            }
            a_least_rate_is_a_share(shorter, hypothesis);
        }
    }
}

// ---------------------------------------------------------------------------
// What reading and scoring mean
// ---------------------------------------------------------------------------

/// Taking the bars out keeps all other characters in their order.
pub proof fn only_bars_are_taken_out(left: Seq<char>, right: Seq<char>, character: char)
    ensures
        without_bars(left + right) == without_bars(left) + without_bars(right),
        without_bars(seq![character]) == (if character == '|' {
            Seq::empty()
        } else {
            seq![character]
        }),
    decreases right.len(),
{
    let nothing = Seq::<char>::empty();
    assert(seq![character].drop_last() =~= nothing);
    assert(without_bars(nothing) == nothing);
    assert(nothing.push(character) =~= seq![character]);
    if right.len() == 0 {
        assert(left + right =~= left);
        assert(without_bars(left) + nothing =~= without_bars(left));
    } else {
        only_bars_are_taken_out(left, right.drop_last(), character);
        assert((left + right).drop_last() =~= left + right.drop_last());
        assert(without_bars(left + right) =~= without_bars(left) + without_bars(right));
    }
}

proof fn texts_without_bars_stay(text: Seq<char>)
    requires
        !text.contains('|'),
    ensures
        without_bars(text) == text,
    decreases text.len(),
{
    if text.len() > 0 {
        let rest = text.drop_last();
        assert(text.contains(text.last()));
        assert forall|i: int| 0 <= i < rest.len() implies rest[i] != '|' by {
            assert(text.contains(text[i]));
        }
        texts_without_bars_stay(rest);
        assert(rest.push(text.last()) =~= text);
    } else {
        assert(without_bars(text) =~= text);
    }
}

/// A line with a reading, the separator and a surface, neither of them empty or with a bar, gives
/// exactly these two; a line without a separator gives none.
pub proof fn a_separated_line_is_read(reading: Seq<char>, surface: Seq<char>)
    requires
        reading.len() > 0,
        surface.len() > 0,
        !reading.contains('|'),
        !surface.contains('|'),
    ensures
        anthy_line(reading + seq!['|', ' ', '|'] + surface) == Ok::<TextPair, Seq<char>>(
            (reading, surface),
        ),
        anthy_line(reading) is Err,
{
    let line = reading + seq!['|', ' ', '|'] + surface;
    no_separator_before_the_first_bar(line, reading.len() as int, 0);
    assert(separator_at(line, reading.len() as int));
    assert(line.take(reading.len() as int) =~= reading);
    assert(line.skip((reading.len() + 3) as int) =~= surface);
    texts_without_bars_stay(reading);
    texts_without_bars_stay(surface);
    no_separator_without_bars(reading, 0);
}

proof fn no_separator_before_the_first_bar(line: Seq<char>, bar: int, index: int)
    requires
        0 <= index <= bar,
        bar + 3 <= line.len(),
        separator_at(line, bar),
        forall|i: int| 0 <= i < bar ==> #[trigger] line[i] != '|',
    ensures
        separator_from(line, index) == Some(bar),
    decreases bar - index,
{
    if index < bar {
        assert(line[index] != '|');
        no_separator_before_the_first_bar(line, bar, index + 1);
    }
}

proof fn no_separator_without_bars(line: Seq<char>, index: int)
    requires
        0 <= index,
        !line.contains('|'),
    ensures
        separator_from(line, index) is None,
    decreases line.len() - index,
{
    if index + 3 <= line.len() {
        assert(line.contains(line[index]));
        no_separator_without_bars(line, index + 1);
    }
}

/// Whether the item was made of the row with this number: it is named by the path and the number of
/// the line, has no context, and holds the reading and the surface.
pub open spec fn is_item_of_row(
    item: ItemView,
    path: Seq<char>,
    row: int,
    reading: Seq<char>,
    surface: Seq<char>,
) -> bool {
    &&& item.index == path + ":"@ + decimal((row + 1) as nat)
    &&& item.source_split is None
    &&& item.context_text.len() == 0 && item.right_context_text.len() == 0
    &&& item.input == reading
    &&& item.expected_output == seq![surface]
}

/// Whether one of the first `count` rows made the item.
pub open spec fn is_anthy_item(item: ItemView, path: Seq<char>, rows: Seq<Seq<char>>, count: int) -> bool {
    exists|row: int|
        0 <= row < count && {
            let read = anthy_line(trim(#[trigger] rows[row]));
            read is Ok && is_item_of_row(item, path, row, (read->Ok_0).0, (read->Ok_0).1)
        }
}

/// Every item of an Anthy file comes from one of its lines, in their order, and there are as many
/// items as lines that are neither empty nor a comment.
pub proof fn anthy_items_come_from_their_lines(path: Seq<char>, rows: Seq<Seq<char>>, count: int)
    requires
        0 <= count <= rows.len(),
        anthy_items(path, rows, count) is Ok,
    ensures
        ({
            let items = anthy_items(path, rows, count)->Ok_0;
            &&& forall|i: int|
                0 <= i < items.len() ==> is_anthy_item(#[trigger] items[i], path, rows, count)
            &&& items.len() == lines_with_content(rows, count)
        }),
    decreases count,
{
    if count > 0 {
        anthy_items_come_from_their_lines(path, rows, count - 1);
        let before = anthy_items(path, rows, count - 1)->Ok_0;
        let items = anthy_items(path, rows, count)->Ok_0;
        assert forall|i: int| 0 <= i < items.len() implies is_anthy_item(
            #[trigger] items[i],
            path,
            rows,
            count,
        ) by {
            if i < before.len() {
                assert(is_anthy_item(before[i], path, rows, count - 1));
                let row = choose|row: int|
                    0 <= row < count - 1 && {
                        let read = anthy_line(trim(#[trigger] rows[row]));
                        read is Ok && is_item_of_row(
                            before[i],
                            path,
                            row,
                            (read->Ok_0).0,
                            (read->Ok_0).1,
                        )
                    };
                assert(anthy_line(trim(rows[row])) is Ok);
            } else {
                let read = anthy_line(trim(rows[count - 1]));
                assert(is_item_of_row(
                    items[i],
                    path,
                    count - 1,
                    (read->Ok_0).0,
                    (read->Ok_0).1,
                ));
            }
        }
    }
}

/// The number of those of the first `count` lines that are neither empty nor a comment.
pub open spec fn lines_with_content(rows: Seq<Seq<char>>, count: int) -> nat
    decreases count,
{
    if count <= 0 {
        0
    } else {
        let line = trim(rows[count - 1]);
        lines_with_content(rows, count - 1) + (if line.len() > 0 && line[0] != '#' {
            1nat
        } else {
            0
        })
    }
}

/// The readings and the surfaces of tokens stand one behind the other, in order.
pub proof fn tokens_are_joined_in_order(
    left: Seq<TextPair>,
    right: Seq<TextPair>,
    surface: Seq<char>,
    reading: Seq<char>,
)
    ensures
        joined_readings(left + right) == joined_readings(left) + joined_readings(right),
        joined_surfaces(left + right) == joined_surfaces(left) + joined_surfaces(right),
        joined_readings(seq![(surface, reading)]) == reading,
        joined_surfaces(seq![(surface, reading)]) == surface,
    decreases right.len(),
{
    let nothing = Seq::<char>::empty();
    let one = seq![(surface, reading)];
    assert(one.drop_last() =~= Seq::<TextPair>::empty());
    assert(joined_readings(Seq::<TextPair>::empty()) == nothing);
    assert(joined_surfaces(Seq::<TextPair>::empty()) == nothing);
    assert(nothing + reading =~= reading);
    assert(nothing + surface =~= surface);
    if right.len() == 0 {
        assert(left + right =~= left);
        assert(joined_readings(left) + nothing =~= joined_readings(left));
        assert(joined_surfaces(left) + nothing =~= joined_surfaces(left));
    } else {
        tokens_are_joined_in_order(left, right.drop_last(), surface, reading);
        assert((left + right).drop_last() =~= left + right.drop_last());
        assert(joined_readings(left + right) =~= joined_readings(left) + joined_readings(right));
        assert(joined_surfaces(left + right) =~= joined_surfaces(left) + joined_surfaces(right));
    }
}

/// Whether one of the first `count` rows made the item.
pub open spec fn is_annotated_item(
    item: ItemView,
    path: Seq<char>,
    rows: Seq<Seq<char>>,
    count: int,
) -> bool {
    exists|row: int|
        0 <= row < count && {
            let read = line_tokens(#[trigger] rows[row]);
            read is Ok && read->Ok_0.len() > 0 && is_item_of_row(
                item,
                path,
                row,
                joined_readings(read->Ok_0),
                joined_surfaces(read->Ok_0),
            )
        }
}

/// Every item of an annotated file comes from one of its lines: it has the readings of the line's
/// tokens as its input and their surfaces as the expected output.
pub proof fn annotated_items_come_from_their_lines(
    path: Seq<char>,
    rows: Seq<Seq<char>>,
    count: int,
)
    requires
        0 <= count <= rows.len(),
        annotated_items(path, rows, count) is Ok,
    ensures
        forall|i: int|
            0 <= i < annotated_items(path, rows, count)->Ok_0.len() ==> is_annotated_item(
                #[trigger] annotated_items(path, rows, count)->Ok_0[i],
                path,
                rows,
                count,
            ),
    decreases count,
{
    if count > 0 {
        annotated_items_come_from_their_lines(path, rows, count - 1);
        let before = annotated_items(path, rows, count - 1)->Ok_0;
        let items = annotated_items(path, rows, count)->Ok_0;
        assert forall|i: int| 0 <= i < items.len() implies is_annotated_item(
            #[trigger] items[i],
            path,
            rows,
            count,
        ) by {
            if i < before.len() {
                assert(is_annotated_item(before[i], path, rows, count - 1));
                let row = choose|row: int|
                    0 <= row < count - 1 && {
                        let read = line_tokens(#[trigger] rows[row]);
                        read is Ok && read->Ok_0.len() > 0 && is_item_of_row(
                            before[i],
                            path,
                            row,
                            joined_readings(read->Ok_0),
                            joined_surfaces(read->Ok_0),
                        )
                    };
                assert(line_tokens(rows[row]) is Ok);
            } else {
                assert(line_tokens(rows[count - 1]) is Ok);
            }
        }
    }
}

/// The items that are taken are the first ones that the filter allows: all of them, those without a
/// context, or those with one.
pub proof fn the_first_allowed_items_are_taken(
    items: Seq<ItemView>,
    filter: ContextFilter,
    limit: int,
    count: int,
)
    requires
        0 <= count <= items.len(),
        limit >= 0,
    ensures
        ({
            let found = taken(items, filter, limit, count);
            &&& found.len() <= limit
            &&& forall|i: int|
                0 <= i < found.len() ==> 0 <= #[trigger] found[i] < count && match filter {
                    ContextFilter::All => true,
                    ContextFilter::Absent => items[found[i]].context_text.len() == 0,
                    ContextFilter::Present => items[found[i]].context_text.len() > 0,
                }
            &&& forall|i: int, j: int|
                0 <= i < j < found.len() ==> (#[trigger] found[i]) < #[trigger] found[j]
            &&& forall|k: int|
                0 <= k < count && !found.contains(k) ==> taken(items, filter, limit, k).len() == limit
                    || match filter {
                    ContextFilter::All => false,
                    ContextFilter::Absent => (#[trigger] items[k]).context_text.len() > 0,
                    ContextFilter::Present => items[k].context_text.len() == 0,
                }
        }),
    decreases count,
{
    if count > 0 {
        the_first_allowed_items_are_taken(items, filter, limit, count - 1);
        let before = taken(items, filter, limit, count - 1);
        let found = taken(items, filter, limit, count);
        assert forall|i: int, j: int| 0 <= i < j < found.len() implies (#[trigger] found[i])
            < #[trigger] found[j] by {
            if j < before.len() {
                assert(before[i] < before[j]);
            } else {
                assert(before[i] < count - 1);
            }
        }
        assert forall|k: int| 0 <= k < count && !found.contains(k) implies taken(
            items,
            filter,
            limit,
            k,
        ).len() == limit || match filter {
            ContextFilter::All => false,
            ContextFilter::Absent => (#[trigger] items[k]).context_text.len() > 0,
            ContextFilter::Present => items[k].context_text.len() == 0,
        } by {
            if k < count - 1 {
                if before.contains(k) {
                    let i = choose|i: int| 0 <= i < before.len() && before[i] == k;
                    assert(found[i] == k);
                }
                assert(items[k] == items[k]);
            } else if before.len() < limit && filter.takes(items[k].context_text) {
                assert(found[before.len() as int] == k);
            }
        }
    }
}

/// Full-width digits are compared as ASCII digits in the Anthy corpus; every other character, and
/// every character elsewhere, as it is.
pub proof fn only_full_width_digits_are_narrowed(value: Seq<char>, index: int)
    requires
        0 <= index < value.len(),
    ensures
        ({
            let found = normalized(value, DatasetFormat::Anthy);
            &&& found.len() == value.len()
            &&& '０' <= value[index] <= '９' ==> found[index] as u32 == value[index] as u32 - 0xFEE0
            &&& !('０' <= value[index] <= '９') ==> found[index] == value[index]
        }),
        normalized(value, DatasetFormat::Ajimee) == value,
        normalized(value, DatasetFormat::Annotated) == value,
{
}

/// The rank of an item is the place of the first candidate that is right once both are compared as
/// their corpus compares them.
pub proof fn the_rank_is_that_of_the_first_right_candidate(
    candidates: Seq<Seq<char>>,
    expected: Seq<Seq<char>>,
    format: DatasetFormat,
    place: int,
)
    requires
        candidates.len() <= usize::MAX,
        0 <= place < candidates.len(),
        is_right(candidates[place], expected, format),
        forall|i: int| 0 <= i < place ==> !is_right(#[trigger] candidates[i], expected, format),
    ensures
        item_score(candidates, expected, format).rank == Some(place as usize),
{
    let found = all_normalized(candidates, format);
    let right = all_normalized(expected, format);
    first_expected_is_the_first(found, right);
    let j = choose|j: int|
        0 <= j < expected.len() && normalized(candidates[place], format) == normalized(
            #[trigger] expected[j],
            format,
        );
    assert(right[j] == found[place]);
    assert(right.contains(found[place]));
    let first = first_expected(found, right)->0;
    assert(right.contains(found[first]));
    if first < place {
        let k = choose|k: int| 0 <= k < right.len() && right[k] == found[first];
        assert(normalized(candidates[first], format) == normalized(expected[k], format));
        assert(is_right(candidates[first], expected, format));
    } else if first > place {
        assert(!right.contains(found[place]));
    }
}

/// Whether a candidate is right: it is compared as one of the expected surfaces is.
pub open spec fn is_right(
    candidate: Seq<char>,
    expected: Seq<Seq<char>>,
    format: DatasetFormat,
) -> bool {
    exists|j: int|
        0 <= j < expected.len() && normalized(candidate, format) == normalized(
            #[trigger] expected[j],
            format,
        )
}

/// The share of wrong characters is the number of edits over the characters of the reference; an
/// empty reference fits only the empty text.
pub proof fn a_share_is_edits_over_characters(reference: Seq<char>, hypothesis: Seq<char>)
    requires
        reference.len() <= usize::MAX,
        distance(reference, hypothesis) <= usize::MAX,
    ensures
        reference.len() > 0 ==> error_rate(reference, hypothesis).characters == reference.len()
            && error_rate(reference, hypothesis).edits == distance(reference, hypothesis),
        reference.len() == 0 && hypothesis.len() == 0 ==> error_rate(reference, hypothesis).edits == 0,
        reference.len() == 0 && hypothesis.len() > 0 ==> error_rate(
            reference,
            hypothesis,
        ).characters == 0 && error_rate(reference, hypothesis).edits > 0,
{
}

} // verus!
