//! Tables of tab-separated columns: one record a line, with the errors of each kind of table.

use vstd::prelude::*;
use vstd::string::*;
use vstd::utf8::*;

use crate::kana::{hiragana_text, katakana_to_hiragana};
use crate::order::TextSet;
use crate::private_corpus::{
    exceeds_bytes, is_valid_field, normalize_phonetic_reading, phonetic_reading, valid_token_field,
    MAX_LINE_BYTES,
};
use crate::text::{
    any_control, character_count, characters, columns_of, count_text, decimal, has_control,
    holds_character, joined, lines, lines_of, read_i32, signed_decimal,
    signed_decimal_text, signed_value, split_at_first, split_first, split_on, texts,
    };

verus! {

// ---------------------------------------------------------------------------
// Rows
// ---------------------------------------------------------------------------

/// The state after the first `count` rows, or the error of the first row that has one. Rows
/// are numbered from one.
pub open spec fn fold_rows<S>(
    start: S,
    rows: Seq<Seq<char>>,
    step: spec_fn(S, Seq<char>, nat) -> Result<S, Seq<char>>,
    count: int,
) -> Result<S, Seq<char>>
    decreases count,
{
    if count <= 0 {
        Ok(start)
    } else {
        match fold_rows(start, rows, step, count - 1) {
            Err(error) => Err(error),
            Ok(before) => step(before, rows[count - 1], count as nat),
        }
    }
}

/// After an error nothing more is read.
pub proof fn the_first_error_stays<S>(
    start: S,
    rows: Seq<Seq<char>>,
    step: spec_fn(S, Seq<char>, nat) -> Result<S, Seq<char>>,
    low: int,
    high: int,
)
    requires
        fold_rows(start, rows, step, low) is Err,
        0 <= low <= high,
    ensures
        fold_rows(start, rows, step, high) == fold_rows(start, rows, step, low),
    decreases high - low,
{
    if low < high {
        the_first_error_stays(start, rows, step, low, high - 1);
    }
}

/// The message on a row.
pub open spec fn row_message(kind: Seq<char>, number: nat, problem: Seq<char>) -> Seq<char> {
    kind + decimal(number) + problem
}

pub fn message_on_row(kind: &str, number: usize, problem: &str) -> (result: String)
    ensures
        result@ == row_message(kind@, number as nat, problem@),
{
    let digits: String = count_text(number);
    let start: String = joined(kind, digits.as_str());
    joined(start.as_str(), problem)
}

/// Whether a row holds no record: it is empty or a comment.
pub open spec fn is_skipped(line: Seq<char>) -> bool {
    line.len() == 0 || line[0] == '#'
}

pub fn skipped(line: &str) -> (result: bool)
    ensures
        result == is_skipped(line@),
{
    let letters: Vec<char> = characters(line);
    letters.len() == 0 || letters[0] == '#'
}

/// The column with this number; nothing if there is none.
pub open spec fn column(columns: Seq<Seq<char>>, index: int) -> Seq<char> {
    if 0 <= index < columns.len() {
        columns[index]
    } else {
        Seq::empty()
    }
}

fn column_of(columns: &Vec<String>, index: usize) -> (result: String)
    ensures
        result@ == column(texts(columns@), index as int),
{
    if index < columns.len() {
        columns[index].clone()
    } else {
        String::new()
    }
}

/// A reading and a surface as one text.
pub open spec fn pair_key_of(reading: Seq<char>, surface: Seq<char>) -> Seq<char> {
    reading + seq!['\0'] + surface
}

pub fn pair_key(reading: &str, surface: &str) -> (result: String)
    ensures
        result@ == pair_key_of(reading@, surface@),
{
    let mut result: String = reading.to_owned();
    result.push('\0');
    result.append(surface);
    assert(result@ =~= pair_key_of(reading@, surface@));
    result
}

/// Different pairs have different keys, unless a first text holds the separating character.
pub proof fn keys_tell_pairs_apart(
    reading: Seq<char>,
    surface: Seq<char>,
    other_reading: Seq<char>,
    other_surface: Seq<char>,
)
    requires
        !reading.contains('\0'),
        !other_reading.contains('\0'),
        pair_key_of(reading, surface) == pair_key_of(other_reading, other_surface),
    ensures
        reading == other_reading,
        surface == other_surface,
{
    let left = pair_key_of(reading, surface);
    let right = pair_key_of(other_reading, other_surface);
    if reading.len() < other_reading.len() {
        assert(left[reading.len() as int] == '\0');
        assert(right[reading.len() as int] == other_reading[reading.len() as int]);
        assert(other_reading.contains('\0'));
    } else if other_reading.len() < reading.len() {
        assert(right[other_reading.len() as int] == '\0');
        assert(left[other_reading.len() as int] == reading[other_reading.len() as int]);
        assert(reading.contains('\0'));
    }
    assert(left.take(reading.len() as int) =~= reading);
    assert(right.take(reading.len() as int) =~= other_reading);
    assert(left.skip(reading.len() as int + 1) =~= surface);
    assert(right.skip(reading.len() as int + 1) =~= other_surface);
}

// ---------------------------------------------------------------------------
// Readings with expected surfaces
// ---------------------------------------------------------------------------

/// A reading with the surface that should be found for it.
#[derive(Debug, PartialEq, Eq)]
pub struct RecallItem {
    pub reading: String,
    pub surface: String,
}

/// The readings and surfaces that were read, and their keys.
pub ghost struct PairRows {
    pub items: Seq<(Seq<char>, Seq<char>)>,
    pub seen: Set<Seq<char>>,
}

pub open spec fn recall_views(items: Seq<RecallItem>) -> Seq<(Seq<char>, Seq<char>)> {
    Seq::new(items.len(), |i: int| (items[i].reading@, items[i].surface@))
}

/// What is read after one more row of readings and surfaces.
pub open spec fn recall_row(state: PairRows, line: Seq<char>, number: nat) -> Result<
    PairRows,
    Seq<char>,
> {
    let columns = split_on(line, '\t');
    let reading = hiragana_text(column(columns, 0));
    let surface = column(columns, 1);
    if is_skipped(line) {
        Ok(state)
    } else if column(columns, 0).len() == 0 {
        Err(row_message("line "@, number, " has an empty reading"@))
    } else if surface.len() == 0 {
        Err(row_message("line "@, number, " has an empty surface"@))
    } else if columns.len() > 2 {
        Err(row_message("line "@, number, " has more than two columns"@))
    } else if state.seen.contains(pair_key_of(reading, surface)) {
        Err(row_message("line "@, number, " duplicates an earlier reading and surface pair"@))
    } else {
        Ok(
            PairRows {
                items: state.items.push((reading, surface)),
                seen: state.seen.insert(pair_key_of(reading, surface)),
            },
        )
    }
}

pub open spec fn recall_step() -> spec_fn(PairRows, Seq<char>, nat) -> Result<
    PairRows,
    Seq<char>,
> {
    |state: PairRows, line: Seq<char>, number: nat| recall_row(state, line, number)
}

/// The items of a table, or the error.
pub open spec fn recall_items(source: Seq<char>) -> Result<Seq<(Seq<char>, Seq<char>)>, Seq<char>> {
    match fold_rows(
        PairRows { items: Seq::empty(), seen: Set::empty() },
        lines(source),
        recall_step(),
        lines(source).len() as int,
    ) {
        Err(error) => Err(error),
        Ok(state) => if state.items.len() == 0 {
            Err("input contains no recall items"@)
        } else {
            Ok(state.items)
        },
    }
}

fn read_recall_row(
    line: &str,
    number: usize,
    items: &mut Vec<RecallItem>,
    seen: &mut TextSet,
) -> (result: Result<(), String>)
    requires
        old(seen).well_formed(),
    ensures
        final(seen).well_formed(),
        match recall_row(
            PairRows { items: recall_views(old(items)@), seen: old(seen)@ },
            line@,
            number as nat,
        ) {
            Ok(state) => result is Ok && recall_views(final(items)@) == state.items && final(seen)@ == state.seen,
            Err(error) => result is Err && result->Err_0@ == error,
        },
{
    if skipped(line) {
        return Ok(());
    }
    let columns: Vec<String> = columns_of(line, '\t');
    let first: String = column_of(&columns, 0);
    let surface: String = column_of(&columns, 1);
    assert(texts(columns@).len() == columns@.len());
    if first.as_str().is_empty() {
        return Err(message_on_row("line ", number, " has an empty reading"));
    }
    if surface.as_str().is_empty() {
        return Err(message_on_row("line ", number, " has an empty surface"));
    }
    if columns.len() > 2 {
        return Err(message_on_row("line ", number, " has more than two columns"));
    }
    let reading: String = katakana_to_hiragana(first.as_str());
    let key: String = pair_key(reading.as_str(), surface.as_str());
    if !seen.insert(key.as_str()) {
        return Err(
            message_on_row("line ", number, " duplicates an earlier reading and surface pair"),
        );
    }
    let ghost before = recall_views(items@);
    let ghost view = (reading@, surface@);
    items.push(RecallItem { reading, surface });
    assert(recall_views(items@) =~= before.push(view));
    Ok(())
}

/// Reads a table of readings and expected surfaces.
pub fn load_items_from_reader(source: &str) -> (result: Result<Vec<RecallItem>, String>)
    ensures
        match recall_items(source@) {
            Ok(items) => result is Ok && recall_views(result->Ok_0@) == items,
            Err(error) => result is Err && result->Err_0@ == error,
        },
{
    let rows: Vec<String> = lines_of(source);
    let ghost all = lines(source@);
    let ghost start = PairRows { items: Seq::empty(), seen: Set::empty() };
    let mut items: Vec<RecallItem> = Vec::new();
    let mut seen: TextSet = TextSet::new();
    assert(recall_views(items@) =~= start.items);
    for index in 0..rows.len()
        invariant
            all == texts(rows@),
            all == lines(source@),
            start == (PairRows { items: Seq::empty(), seen: Set::empty() }),
            seen.well_formed(),
            fold_rows(start, all, recall_step(), index as int) == Ok::<PairRows, Seq<char>>(
                PairRows { items: recall_views(items@), seen: seen@ },
            ),
    {
        assert(all[index as int] == rows@[index as int]@);
        match read_recall_row(rows[index].as_str(), index + 1, &mut items, &mut seen) {
            Ok(()) => {},
            Err(error) => {
                proof {
                    the_first_error_stays(
                        start,
                        all,
                        recall_step(),
                        index + 1,
                        all.len() as int,
                    );
                }
                return Err(error);
            },
        }
    }
    assert(recall_views(items@).len() == items@.len());
    if items.len() == 0 {
        return Err("input contains no recall items".to_owned());
    }
    Ok(items)
}

// ---------------------------------------------------------------------------
// Dictionary entries
// ---------------------------------------------------------------------------

/// A word of a dictionary.
#[derive(Debug, PartialEq, Eq)]
pub struct DictionaryEntry {
    pub reading: String,
    pub surface: String,
    pub cost: i32,
}

impl View for DictionaryEntry {
    type V = (Seq<char>, Seq<char>, int);

    open spec fn view(&self) -> (Seq<char>, Seq<char>, int) {
        (self.reading@, self.surface@, self.cost as int)
    }
}

pub open spec fn entry_views(entries: Seq<DictionaryEntry>) -> Seq<(Seq<char>, Seq<char>, int)> {
    Seq::new(entries.len(), |i: int| entries[i]@)
}

/// The entries that were read, and the keys of their readings and surfaces.
pub ghost struct EntryRows {
    pub entries: Seq<(Seq<char>, Seq<char>, int)>,
    pub seen: Set<Seq<char>>,
}

/// The number of a column, if it is a 32-bit integer; the default if there is no such column.
pub open spec fn cost_column(columns: Seq<Seq<char>>, index: int, default: int) -> Option<int> {
    if index >= columns.len() {
        Some(default)
    } else {
        match signed_value(columns[index]) {
            Some(value) => if i32::MIN <= value <= i32::MAX {
                Some(value)
            } else {
                None
            },
            None => None,
        }
    }
}

fn cost_of_column(columns: &Vec<String>, index: usize, default: i32) -> (result: Option<i32>)
    ensures
        result is Some <==> cost_column(texts(columns@), index as int, default as int) is Some,
        result matches Some(cost) ==> cost_column(texts(columns@), index as int, default as int)
            == Some(cost as int),
{
    if index >= columns.len() {
        Some(default)
    } else {
        assert(texts(columns@)[index as int] == columns@[index as int]@);
        read_i32(columns[index].as_str())
    }
}

/// What is read after one more row of an external dictionary.
pub open spec fn external_row(state: EntryRows, line: Seq<char>, number: nat) -> Result<
    EntryRows,
    Seq<char>,
> {
    let columns = split_on(line, '\t');
    let reading = hiragana_text(column(columns, 0));
    let surface = column(columns, 1);
    let cost = cost_column(columns, 2, 5_000);
    if is_skipped(line) {
        Ok(state)
    } else if column(columns, 0).len() == 0 {
        Err(row_message("line "@, number, " has an empty reading"@))
    } else if surface.len() == 0 {
        Err(row_message("line "@, number, " has an empty surface"@))
    } else if cost is None {
        Err(row_message("line "@, number, " has an invalid cost"@))
    } else if columns.len() > 3 {
        Err(row_message("line "@, number, " has more than three columns"@))
    } else if !(0 <= cost->0 <= 100_000) {
        Err(
            row_message(
                "line "@,
                number,
                " cost "@ + signed_decimal(cost->0) + " is outside 0..=100000"@,
            ),
        )
    } else if state.seen.contains(pair_key_of(reading, surface)) {
        Err(row_message("line "@, number, " duplicates an earlier reading and surface pair"@))
    } else {
        Ok(
            EntryRows {
                entries: state.entries.push((reading, surface, cost->0)),
                seen: state.seen.insert(pair_key_of(reading, surface)),
            },
        )
    }
}

pub open spec fn external_step() -> spec_fn(EntryRows, Seq<char>, nat) -> Result<
    EntryRows,
    Seq<char>,
> {
    |state: EntryRows, line: Seq<char>, number: nat| external_row(state, line, number)
}

/// What is read after one more row of a private dictionary.
pub open spec fn private_row(state: EntryRows, line: Seq<char>, number: nat) -> Result<
    EntryRows,
    Seq<char>,
> {
    let columns = split_on(line, '\t');
    let reading = phonetic_reading(column(columns, 0));
    let surface = column(columns, 1);
    let cost = cost_column(columns, 2, 5_000);
    if is_skipped(line) {
        Ok(state)
    } else if encode_utf8(line).len() > MAX_LINE_BYTES {
        Err(row_message("dictionary line "@, number, " exceeds the byte limit"@))
    } else if cost is None {
        Err(row_message("dictionary line "@, number, " has an invalid cost"@))
    } else if columns.len() > 3 || !is_valid_field(surface) || !(0 <= cost->0 <= 100_000) {
        Err(row_message("dictionary line "@, number, " is invalid"@))
    } else if reading is None {
        Err(row_message("dictionary line "@, number, " has an invalid reading"@))
    } else if state.seen.contains(pair_key_of(reading->0, surface)) {
        Err(row_message("dictionary line "@, number, " duplicates an earlier entry"@))
    } else {
        Ok(
            EntryRows {
                entries: state.entries.push((reading->0, surface, cost->0)),
                seen: state.seen.insert(pair_key_of(reading->0, surface)),
            },
        )
    }
}

pub open spec fn private_step() -> spec_fn(EntryRows, Seq<char>, nat) -> Result<
    EntryRows,
    Seq<char>,
> {
    |state: EntryRows, line: Seq<char>, number: nat| private_row(state, line, number)
}

/// The entries of a table, or the error.
pub open spec fn dictionary_entries(
    source: Seq<char>,
    step: spec_fn(EntryRows, Seq<char>, nat) -> Result<EntryRows, Seq<char>>,
) -> Result<Seq<(Seq<char>, Seq<char>, int)>, Seq<char>> {
    match fold_rows(
        EntryRows { entries: Seq::empty(), seen: Set::empty() },
        lines(source),
        step,
        lines(source).len() as int,
    ) {
        Err(error) => Err(error),
        Ok(state) => if state.entries.len() == 0 {
            Err("dictionary contains no entries"@)
        } else {
            Ok(state.entries)
        },
    }
}

fn read_external_row(
    line: &str,
    number: usize,
    entries: &mut Vec<DictionaryEntry>,
    seen: &mut TextSet,
) -> (result: Result<(), String>)
    requires
        old(seen).well_formed(),
    ensures
        final(seen).well_formed(),
        match external_row(
            EntryRows { entries: entry_views(old(entries)@), seen: old(seen)@ },
            line@,
            number as nat,
        ) {
            Ok(state) => result is Ok && entry_views(final(entries)@) == state.entries && final(seen)@ == state.seen,
            Err(error) => result is Err && result->Err_0@ == error,
        },
{
    if skipped(line) {
        return Ok(());
    }
    let columns: Vec<String> = columns_of(line, '\t');
    let first: String = column_of(&columns, 0);
    let surface: String = column_of(&columns, 1);
    assert(texts(columns@).len() == columns@.len());
    if first.as_str().is_empty() {
        return Err(message_on_row("line ", number, " has an empty reading"));
    }
    if surface.as_str().is_empty() {
        return Err(message_on_row("line ", number, " has an empty surface"));
    }
    let cost: i32 = match cost_of_column(&columns, 2, 5_000) {
        Some(cost) => cost,
        None => return Err(message_on_row("line ", number, " has an invalid cost")),
    };
    if columns.len() > 3 {
        return Err(message_on_row("line ", number, " has more than three columns"));
    }
    if cost < 0 || cost > 100_000 {
        let digits: String = signed_decimal_text(cost as i64);
        let start: String = joined(" cost ", digits.as_str());
        let problem: String = joined(start.as_str(), " is outside 0..=100000");
        return Err(message_on_row("line ", number, problem.as_str()));
    }
    let reading: String = katakana_to_hiragana(first.as_str());
    let key: String = pair_key(reading.as_str(), surface.as_str());
    if !seen.insert(key.as_str()) {
        return Err(
            message_on_row("line ", number, " duplicates an earlier reading and surface pair"),
        );
    }
    let ghost before = entry_views(entries@);
    let entry: DictionaryEntry = DictionaryEntry { reading, surface, cost };
    let ghost view = entry@;
    entries.push(entry);
    assert(entry_views(entries@) =~= before.push(view));
    Ok(())
}

/// Reads a dictionary of readings, surfaces and optional costs for an evaluation.
pub fn load_dictionary_entries(source: &str) -> (result: Result<Vec<DictionaryEntry>, String>)
    ensures
        match dictionary_entries(source@, external_step()) {
            Ok(entries) => result is Ok && entry_views(result->Ok_0@) == entries,
            Err(error) => result is Err && result->Err_0@ == error,
        },
{
    let rows: Vec<String> = lines_of(source);
    let ghost all = lines(source@);
    let ghost start = EntryRows { entries: Seq::empty(), seen: Set::empty() };
    let mut entries: Vec<DictionaryEntry> = Vec::new();
    let mut seen: TextSet = TextSet::new();
    assert(entry_views(entries@) =~= start.entries);
    for index in 0..rows.len()
        invariant
            all == texts(rows@),
            all == lines(source@),
            start == (EntryRows { entries: Seq::empty(), seen: Set::empty() }),
            seen.well_formed(),
            fold_rows(start, all, external_step(), index as int) == Ok::<EntryRows, Seq<char>>(
                EntryRows { entries: entry_views(entries@), seen: seen@ },
            ),
    {
        assert(all[index as int] == rows@[index as int]@);
        match read_external_row(rows[index].as_str(), index + 1, &mut entries, &mut seen) {
            Ok(()) => {},
            Err(error) => {
                proof {
                    the_first_error_stays(
                        start,
                        all,
                        external_step(),
                        index + 1,
                        all.len() as int,
                    );
                }
                return Err(error);
            },
        }
    }
    assert(entry_views(entries@).len() == entries@.len());
    if entries.len() == 0 {
        return Err("dictionary contains no entries".to_owned());
    }
    Ok(entries)
}

fn read_private_row(
    line: &str,
    number: usize,
    entries: &mut Vec<DictionaryEntry>,
    seen: &mut TextSet,
) -> (result: Result<(), String>)
    requires
        old(seen).well_formed(),
    ensures
        final(seen).well_formed(),
        match private_row(
            EntryRows { entries: entry_views(old(entries)@), seen: old(seen)@ },
            line@,
            number as nat,
        ) {
            Ok(state) => result is Ok && entry_views(final(entries)@) == state.entries && final(seen)@ == state.seen,
            Err(error) => result is Err && result->Err_0@ == error,
        },
{
    if skipped(line) {
        return Ok(());
    }
    if exceeds_bytes(line, MAX_LINE_BYTES) {
        return Err(message_on_row("dictionary line ", number, " exceeds the byte limit"));
    }
    let columns: Vec<String> = columns_of(line, '\t');
    let first: String = column_of(&columns, 0);
    let surface: String = column_of(&columns, 1);
    assert(texts(columns@).len() == columns@.len());
    let cost: i32 = match cost_of_column(&columns, 2, 5_000) {
        Some(cost) => cost,
        None => return Err(message_on_row("dictionary line ", number, " has an invalid cost")),
    };
    if columns.len() > 3 || !valid_token_field(surface.as_str()) || cost < 0 || cost > 100_000 {
        return Err(message_on_row("dictionary line ", number, " is invalid"));
    }
    let reading: String = match normalize_phonetic_reading(first.as_str()) {
        Some(reading) => reading,
        None => return Err(message_on_row("dictionary line ", number, " has an invalid reading")),
    };
    let key: String = pair_key(reading.as_str(), surface.as_str());
    if !seen.insert(key.as_str()) {
        return Err(message_on_row("dictionary line ", number, " duplicates an earlier entry"));
    }
    let ghost before = entry_views(entries@);
    let entry: DictionaryEntry = DictionaryEntry { reading, surface, cost };
    let ghost view = entry@;
    entries.push(entry);
    assert(entry_views(entries@) =~= before.push(view));
    Ok(())
}

/// Reads a private dictionary. No error repeats what it reads.
pub fn parse_dictionary_entries(source: &str) -> (result: Result<Vec<DictionaryEntry>, String>)
    ensures
        match dictionary_entries(source@, private_step()) {
            Ok(entries) => result is Ok && entry_views(result->Ok_0@) == entries,
            Err(error) => result is Err && result->Err_0@ == error,
        },
{
    let rows: Vec<String> = lines_of(source);
    let ghost all = lines(source@);
    let ghost start = EntryRows { entries: Seq::empty(), seen: Set::empty() };
    let mut entries: Vec<DictionaryEntry> = Vec::new();
    let mut seen: TextSet = TextSet::new();
    assert(entry_views(entries@) =~= start.entries);
    for index in 0..rows.len()
        invariant
            all == texts(rows@),
            all == lines(source@),
            start == (EntryRows { entries: Seq::empty(), seen: Set::empty() }),
            seen.well_formed(),
            fold_rows(start, all, private_step(), index as int) == Ok::<EntryRows, Seq<char>>(
                EntryRows { entries: entry_views(entries@), seen: seen@ },
            ),
    {
        assert(all[index as int] == rows@[index as int]@);
        match read_private_row(rows[index].as_str(), index + 1, &mut entries, &mut seen) {
            Ok(()) => {},
            Err(error) => {
                proof {
                    the_first_error_stays(
                        start,
                        all,
                        private_step(),
                        index + 1,
                        all.len() as int,
                    );
                }
                return Err(error);
            },
        }
    }
    assert(entry_views(entries@).len() == entries@.len());
    if entries.len() == 0 {
        return Err("dictionary contains no entries".to_owned());
    }
    Ok(entries)
}

/// How many entries all dictionaries of a rule generation may have together.
pub const MAX_DICTIONARY_ENTRIES: usize = 250_000;

/// The number of entries of all dictionaries with one more.
pub fn add_dictionary_entries(total: usize, added: usize) -> (result: Result<usize, String>)
    ensures
        result is Ok <==> total + added <= MAX_DICTIONARY_ENTRIES,
        result matches Ok(sum) ==> sum == total + added,
        result matches Err(error) ==> error@ == (if total + added > usize::MAX {
            "dictionary entry total overflowed"@
        } else {
            "dictionaries exceed the "@ + decimal(MAX_DICTIONARY_ENTRIES as nat) + " entry limit"@
        }),
{
    match total.checked_add(added) {
        None => Err("dictionary entry total overflowed".to_owned()),
        Some(sum) => if sum > MAX_DICTIONARY_ENTRIES {
            Err(message_on_row("dictionaries exceed the ", MAX_DICTIONARY_ENTRIES, " entry limit"))
        } else {
            Ok(sum)
        },
    }
}

// ---------------------------------------------------------------------------
// Cases of a context evaluation
// ---------------------------------------------------------------------------

/// How many cases an evaluation may have.
pub const MAX_CASES: usize = 100_000;

/// How many characters a surface of a case may have.
pub const MAX_SURFACE_CHARACTERS: usize = 128;

/// A reading behind a surface, with the surface that should come out first.
#[derive(Debug, PartialEq, Eq)]
pub struct ContextCase {
    pub previous_surface: String,
    pub reading: String,
    pub expected_surface: String,
}

impl View for ContextCase {
    type V = (Seq<char>, Seq<char>, Seq<char>);

    open spec fn view(&self) -> (Seq<char>, Seq<char>, Seq<char>) {
        (self.previous_surface@, self.reading@, self.expected_surface@)
    }
}

pub open spec fn case_views(cases: Seq<ContextCase>) -> Seq<(Seq<char>, Seq<char>, Seq<char>)> {
    Seq::new(cases.len(), |i: int| cases[i]@)
}

/// The cases that were read, and the keys of their contexts and readings.
pub ghost struct CaseRows {
    pub cases: Seq<(Seq<char>, Seq<char>, Seq<char>)>,
    pub seen: Set<Seq<char>>,
}

/// Whether a surface of a case is short enough and free of control characters.
pub open spec fn is_case_surface(surface: Seq<char>) -> bool {
    surface.len() <= MAX_SURFACE_CHARACTERS && !has_control(surface)
}

/// Whether a reading of a case is short enough and hiragana.
pub open spec fn is_case_reading(reading: Seq<char>) -> bool {
    reading.len() <= MAX_SURFACE_CHARACTERS && forall|i: int|
        0 <= i < reading.len() ==> 0x3041 <= (#[trigger] reading[i]) as u32 <= 0x3096 || reading[i]
            == 'ー'
}

/// What is read after one more row of cases.
pub open spec fn case_row(state: CaseRows, line: Seq<char>, number: nat) -> Result<
    CaseRows,
    Seq<char>,
> {
    let columns = split_on(line, '\t');
    let previous = column(columns, 0);
    let reading = column(columns, 1);
    let expected = column(columns, 2);
    if is_skipped(line) {
        Ok(state)
    } else if state.cases.len() == MAX_CASES {
        Err("inputs exceed the "@ + decimal(MAX_CASES as nat) + " case limit"@)
    } else if previous.len() == 0 || reading.len() == 0 || expected.len() == 0 {
        Err(row_message("line "@, number, " has an empty or missing column"@))
    } else if columns.len() > 3 {
        Err(row_message("line "@, number, " has more than three columns"@))
    } else if !is_case_surface(previous) {
        Err(row_message("line "@, number, " has an invalid surface"@))
    } else if !is_case_reading(reading) {
        Err(row_message("line "@, number, " reading must be hiragana"@))
    } else if !is_case_surface(expected) {
        Err(row_message("line "@, number, " has an invalid surface"@))
    } else if state.seen.contains(pair_key_of(previous, reading)) {
        Err(row_message("line "@, number, " duplicates a context and reading"@))
    } else {
        Ok(
            CaseRows {
                cases: state.cases.push((previous, reading, expected)),
                seen: state.seen.insert(pair_key_of(previous, reading)),
            },
        )
    }
}

pub open spec fn case_step() -> spec_fn(CaseRows, Seq<char>, nat) -> Result<CaseRows, Seq<char>> {
    |state: CaseRows, line: Seq<char>, number: nat| case_row(state, line, number)
}

pub fn validate_surface(surface: &str, line_number: usize) -> (result: Result<(), String>)
    ensures
        result is Ok <==> is_case_surface(surface@),
        result matches Err(error) ==> error@ == row_message(
            "line "@,
            line_number as nat,
            " has an invalid surface"@,
        ),
{
    if character_count(surface) <= MAX_SURFACE_CHARACTERS && !any_control(surface) {
        Ok(())
    } else {
        Err(message_on_row("line ", line_number, " has an invalid surface"))
    }
}

fn is_hiragana_reading(reading: &str) -> (result: bool)
    ensures
        result == is_case_reading(reading@),
{
    let letters: Vec<char> = characters(reading);
    if letters.len() > MAX_SURFACE_CHARACTERS {
        return false;
    }
    for index in 0..letters.len()
        invariant
            letters@ == reading@,
            letters@.len() <= MAX_SURFACE_CHARACTERS,
            forall|i: int|
                0 <= i < index ==> 0x3041 <= (#[trigger] reading@[i]) as u32 <= 0x3096
                    || reading@[i] == 'ー',
    {
        let code: u32 = letters[index] as u32;
        if !((0x3041 <= code && code <= 0x3096) || letters[index] == 'ー') {
            assert(!(0x3041 <= reading@[index as int] as u32 <= 0x3096));
            return false;
        }
    }
    true
}

pub fn validate_reading(reading: &str, line_number: usize) -> (result: Result<(), String>)
    ensures
        result is Ok <==> is_case_reading(reading@),
        result matches Err(error) ==> error@ == row_message(
            "line "@,
            line_number as nat,
            " reading must be hiragana"@,
        ),
{
    if is_hiragana_reading(reading) {
        Ok(())
    } else {
        Err(message_on_row("line ", line_number, " reading must be hiragana"))
    }
}

fn read_case_row(
    line: &str,
    number: usize,
    cases: &mut Vec<ContextCase>,
    seen: &mut TextSet,
) -> (result: Result<(), String>)
    requires
        old(seen).well_formed(),
    ensures
        final(seen).well_formed(),
        match case_row(
            CaseRows { cases: case_views(old(cases)@), seen: old(seen)@ },
            line@,
            number as nat,
        ) {
            Ok(state) => result is Ok && case_views(final(cases)@) == state.cases && final(seen)@
                == state.seen,
            Err(error) => result is Err && result->Err_0@ == error && final(cases)@ == old(
                cases,
            )@ && final(seen)@ == old(seen)@,
        },
{
    if skipped(line) {
        return Ok(());
    }
    assert(case_views(cases@).len() == cases@.len());
    if cases.len() == MAX_CASES {
        return Err(message_on_row("inputs exceed the ", MAX_CASES, " case limit"));
    }
    let columns: Vec<String> = columns_of(line, '\t');
    let previous_surface: String = column_of(&columns, 0);
    let reading: String = column_of(&columns, 1);
    let expected_surface: String = column_of(&columns, 2);
    assert(texts(columns@).len() == columns@.len());
    if previous_surface.as_str().is_empty() || reading.as_str().is_empty()
        || expected_surface.as_str().is_empty() {
        return Err(message_on_row("line ", number, " has an empty or missing column"));
    }
    if columns.len() > 3 {
        return Err(message_on_row("line ", number, " has more than three columns"));
    }
    match validate_surface(previous_surface.as_str(), number) {
        Ok(()) => {},
        Err(error) => return Err(error),
    }
    match validate_reading(reading.as_str(), number) {
        Ok(()) => {},
        Err(error) => return Err(error),
    }
    match validate_surface(expected_surface.as_str(), number) {
        Ok(()) => {},
        Err(error) => return Err(error),
    }
    let key: String = pair_key(previous_surface.as_str(), reading.as_str());
    if !seen.insert(key.as_str()) {
        assert(seen@ =~= old(seen)@);
        return Err(message_on_row("line ", number, " duplicates a context and reading"));
    }
    let ghost before = case_views(cases@);
    let case: ContextCase = ContextCase { previous_surface, reading, expected_surface };
    let ghost view = case@;
    cases.push(case);
    assert(case_views(cases@) =~= before.push(view));
    Ok(())
}

/// Reads the cases of a source behind those that were read before. If a row is in error, the
/// cases of all rows before it are kept.
pub fn load_cases(source: &str, cases: &mut Vec<ContextCase>, seen: &mut TextSet) -> (result: Result<
    (),
    String,
>)
    requires
        old(seen).well_formed(),
    ensures
        final(seen).well_formed(),
        match fold_rows(
            CaseRows { cases: case_views(old(cases)@), seen: old(seen)@ },
            lines(source@),
            case_step(),
            lines(source@).len() as int,
        ) {
            Ok(state) => result is Ok && case_views(final(cases)@) == state.cases && final(seen)@
                == state.seen,
            Err(error) => result is Err && result->Err_0@ == error && exists|row: int|
                0 <= row < lines(source@).len() && (#[trigger] fold_rows(
                    CaseRows { cases: case_views(old(cases)@), seen: old(seen)@ },
                    lines(source@),
                    case_step(),
                    row,
                )) == Ok::<CaseRows, Seq<char>>(
                    CaseRows { cases: case_views(final(cases)@), seen: final(seen)@ },
                ) && fold_rows(
                    CaseRows { cases: case_views(old(cases)@), seen: old(seen)@ },
                    lines(source@),
                    case_step(),
                    row + 1,
                ) is Err,
        },
{
    let rows: Vec<String> = lines_of(source);
    let ghost all = lines(source@);
    let ghost start = CaseRows { cases: case_views(cases@), seen: seen@ };
    for index in 0..rows.len()
        invariant
            all == texts(rows@),
            all == lines(source@),
            start == (CaseRows { cases: case_views(old(cases)@), seen: old(seen)@ }),
            seen.well_formed(),
            fold_rows(start, all, case_step(), index as int) == Ok::<CaseRows, Seq<char>>(
                CaseRows { cases: case_views(cases@), seen: seen@ },
            ),
    {
        assert(all[index as int] == rows@[index as int]@);
        match read_case_row(rows[index].as_str(), index + 1, cases, seen) {
            Ok(()) => {},
            Err(error) => {
                proof {
                    the_first_error_stays(start, all, case_step(), index + 1, all.len() as int);
                }
                return Err(error);
            },
        }
    }
    Ok(())
}

/// There must be a case to evaluate.
pub fn check_cases(cases: &[ContextCase]) -> (result: Result<(), String>)
    ensures
        result is Ok <==> cases@.len() > 0,
        result matches Err(problem) ==> problem@ == "input files contain no cases"@,
{
    if cases.len() == 0 {
        Err("input files contain no cases".to_owned())
    } else {
        Ok(())
    }
}

// ---------------------------------------------------------------------------
// Policies of signed packs
// ---------------------------------------------------------------------------

/// The two columns of a policy row: exactly one tab stands between them.
pub open spec fn policy_columns(line: Seq<char>) -> Option<(Seq<char>, Seq<char>)> {
    match split_first(line, '\t') {
        None => None,
        Some(parts) => if parts.1.contains('\t') {
            None
        } else {
            Some(parts)
        },
    }
}

pub fn policy_row(line: &str) -> (result: Option<(String, String)>)
    ensures
        result is Some <==> policy_columns(line@) is Some,
        result matches Some(parts) ==> policy_columns(line@) == Some((parts.0@, parts.1@)),
{
    match split_at_first(line, '\t') {
        None => None,
        Some(parts) => if holds_character(parts.1.as_str(), '\t') {
            None
        } else {
            Some(parts)
        },
    }
}

/// The two columns of each row of a policy; `None` for a row that is malformed.
pub fn policy_rows(source: &str) -> (result: Vec<Option<(String, String)>>)
    ensures
        result@.len() == lines(source@).len(),
        forall|i: int|
            0 <= i < result@.len() ==> {
                &&& (#[trigger] result@[i]) is Some <==> policy_columns(lines(source@)[i]) is Some
                &&& result@[i] matches Some(parts) ==> policy_columns(lines(source@)[i]) == Some(
                    (parts.0@, parts.1@),
                )
            },
{
    let rows: Vec<String> = lines_of(source);
    let ghost all = lines(source@);
    assert(texts(rows@).len() == rows@.len());
    let mut result: Vec<Option<(String, String)>> = Vec::new();
    for index in 0..rows.len()
        invariant
            all == texts(rows@),
            all.len() == rows@.len(),
            result@.len() == index,
            forall|i: int|
                0 <= i < index ==> {
                    &&& (#[trigger] result@[i]) is Some <==> policy_columns(all[i]) is Some
                    &&& result@[i] matches Some(parts) ==> policy_columns(all[i]) == Some(
                        (parts.0@, parts.1@),
                    )
                },
    {
        assert(all[index as int] == rows@[index as int]@);
        result.push(policy_row(rows[index].as_str()));
    }
    result
}

/// What is wrong with a policy: its first row that is malformed or that is not valid, or that
/// it has too many records. `wellformed` and `valid` say it of each row.
pub open spec fn policy_problem(
    kind: Seq<char>,
    wellformed: Seq<bool>,
    valid: Seq<bool>,
    limit: int,
    index: int,
) -> Option<Seq<char>>
    decreases wellformed.len() - index,
{
    if index < 0 || index >= wellformed.len() {
        None
    } else if !wellformed[index] {
        Some(kind + " input line "@ + decimal((index + 1) as nat) + " is malformed"@)
    } else if !valid[index] {
        Some(kind + " input line "@ + decimal((index + 1) as nat) + " is invalid"@)
    } else if index + 1 > limit {
        Some(kind + " input exceeds the record limit"@)
    } else {
        policy_problem(kind, wellformed, valid, limit, index + 1)
    }
}

fn policy_message(kind: &str, number: usize, problem: &str) -> (result: String)
    ensures
        result@ == kind@ + " input line "@ + decimal(number as nat) + problem@,
{
    let start: String = joined(kind, " input line ");
    let digits: String = count_text(number);
    let middle: String = joined(start.as_str(), digits.as_str());
    joined(middle.as_str(), problem)
}

/// Whether a policy can be used. `kind` is what its records are.
pub fn check_policy(
    kind: &str,
    source: &str,
    wellformed: &[bool],
    valid: &[bool],
    limit: usize,
) -> (result: Result<(), String>)
    requires
        valid@.len() == wellformed@.len(),
    ensures
        result is Ok <==> source@.len() > 0 && policy_problem(
            kind@,
            wellformed@,
            valid@,
            limit as int,
            0,
        ) is None,
        result matches Err(error) ==> error@ == (if source@.len() == 0 {
            kind@ + " input has no records"@
        } else {
            policy_problem(kind@, wellformed@, valid@, limit as int, 0)->0
        }),
{
    if source.is_empty() {
        return Err(joined(kind, " input has no records"));
    }
    for index in 0..wellformed.len()
        invariant
            valid@.len() == wellformed@.len(),
            source@.len() > 0,
            policy_problem(kind@, wellformed@, valid@, limit as int, index as int)
                == policy_problem(kind@, wellformed@, valid@, limit as int, 0),
    {
        if !wellformed[index] {
            return Err(policy_message(kind, index + 1, " is malformed"));
        }
        if !valid[index] {
            return Err(policy_message(kind, index + 1, " is invalid"));
        }
        if index + 1 > limit {
            return Err(joined(kind, " input exceeds the record limit"));
        }
    }
    Ok(())
}

// ---------------------------------------------------------------------------
// What the rows say
// ---------------------------------------------------------------------------

/// Whether a text can stand in the first column of a row.
pub open spec fn can_lead(text: Seq<char>) -> bool {
    text.len() > 0 && text[0] != '#' && !text.contains('\t')
}

/// Some columns with tabs between them make a row of these columns.
pub(crate) proof fn a_row_has_its_columns(columns: Seq<Seq<char>>)
    requires
        columns.len() >= 1,
        can_lead(columns[0]),
        forall|i: int| 0 <= i < columns.len() ==> !(#[trigger] columns[i]).contains('\t'),
    ensures
        split_on(crate::text::join_with(columns, '\t'), '\t') == columns,
        !is_skipped(crate::text::join_with(columns, '\t')),
    decreases columns.len(),
{
    crate::text::joined_columns_split_again(columns, '\t');
    if columns.len() > 1 {
        let before = columns.drop_last();
        a_row_has_its_columns(before);
        assert(crate::text::join_with(columns, '\t')[0] == crate::text::join_with(before, '\t')[0]);
    }
}

pub(crate) proof fn two_columns_are_joined(first: Seq<char>, second: Seq<char>)
    ensures
        crate::text::join_with(seq![first, second], '\t') == first + seq!['\t'] + second,
{
    let columns = seq![first, second];
    assert(columns.drop_last() =~= seq![first]);
    assert(crate::text::join_with(seq![first], '\t') == first);
    assert(crate::text::join_with(columns, '\t') == first.push('\t') + second);
    assert(first.push('\t') =~= first + seq!['\t']);
}

pub(crate) proof fn three_columns_are_joined(first: Seq<char>, second: Seq<char>, third: Seq<char>)
    ensures
        crate::text::join_with(seq![first, second, third], '\t') == first + seq!['\t'] + second
            + seq!['\t'] + third,
{
    let columns = seq![first, second, third];
    two_columns_are_joined(first, second);
    assert(columns.drop_last() =~= seq![first, second]);
    let start = first + seq!['\t'] + second;
    assert(start.push('\t') =~= start + seq!['\t']);
}

/// A row with a reading and a surface adds this pair, the reading in hiragana, unless the same pair
/// stands in an earlier row.
pub proof fn a_recall_row_adds_its_pair(
    state: PairRows,
    reading: Seq<char>,
    surface: Seq<char>,
    number: nat,
)
    requires
        can_lead(reading),
        surface.len() > 0,
        !surface.contains('\t'),
    ensures
        ({
            let found = recall_row(state, reading + seq!['\t'] + surface, number);
            let pair = (hiragana_text(reading), surface);
            let key = pair.0 + seq!['\0'] + pair.1;
            &&& found is Ok <==> !state.seen.contains(key)
            &&& found is Ok ==> found->Ok_0.items == state.items.push(pair) && found->Ok_0.seen
                == state.seen.insert(key)
        }),
{
    let columns = seq![reading, surface];
    a_row_has_its_columns(columns);
    two_columns_are_joined(reading, surface);
}

/// A row with a reading, a surface and a cost from 0 to 100000 adds this entry, the reading in
/// hiragana, unless the same pair stands in an earlier row; without a cost, it has 5000.
pub proof fn an_external_row_adds_its_entry(
    state: EntryRows,
    reading: Seq<char>,
    surface: Seq<char>,
    cost: nat,
    number: nat,
)
    requires
        can_lead(reading),
        surface.len() > 0,
        !surface.contains('\t'),
    ensures
        ({
            let short = external_row(state, reading + seq!['\t'] + surface, number);
            let long = external_row(
                state,
                reading + seq!['\t'] + surface + seq!['\t'] + decimal(cost),
                number,
            );
            let key = hiragana_text(reading) + seq!['\0'] + surface;
            &&& short is Ok <==> !state.seen.contains(key)
            &&& short is Ok ==> short->Ok_0.entries == state.entries.push(
                (hiragana_text(reading), surface, 5_000),
            ) && short->Ok_0.seen == state.seen.insert(key)
            &&& long is Ok <==> cost <= 100_000 && !state.seen.contains(key)
            &&& long is Ok ==> long->Ok_0.entries == state.entries.push(
                (hiragana_text(reading), surface, cost as int),
            ) && long->Ok_0.seen == state.seen.insert(key)
        }),
{
    let two = seq![reading, surface];
    let three = seq![reading, surface, decimal(cost)];
    crate::text::decimal_reads_back(cost);
    digits_hold_no_tab(decimal(cost));
    a_row_has_its_columns(two);
    a_row_has_its_columns(three);
    two_columns_are_joined(reading, surface);
    three_columns_are_joined(reading, surface, decimal(cost));
}

pub(crate) proof fn digits_hold_no_tab(text: Seq<char>)
    requires
        crate::text::is_digits(text),
    ensures
        !text.contains('\t'),
{
}

/// A row with a kana reading, a surface of one to 128 characters without control characters and a
/// cost from 0 to 100000 adds this entry to a private dictionary, unless the same pair stands in an
/// earlier row.
pub proof fn a_private_row_adds_its_entry(
    state: EntryRows,
    reading: Seq<char>,
    surface: Seq<char>,
    cost: nat,
    number: nat,
)
    requires
        can_lead(reading),
        phonetic_reading(reading) is Some,
        0 < surface.len() <= 128,
        !has_control(surface),
        !surface.contains('\t'),
        encode_utf8(reading + seq!['\t'] + surface + seq!['\t'] + decimal(cost)).len() <= 65_536,
    ensures
        ({
            let found = private_row(
                state,
                reading + seq!['\t'] + surface + seq!['\t'] + decimal(cost),
                number,
            );
            let kana = phonetic_reading(reading)->0;
            let key = kana + seq!['\0'] + surface;
            &&& found is Ok <==> cost <= 100_000 && !state.seen.contains(key)
            &&& found is Ok ==> found->Ok_0.entries == state.entries.push(
                (kana, surface, cost as int),
            ) && found->Ok_0.seen == state.seen.insert(key)
        }),
{
    let two = seq![reading, surface];
    let three = seq![reading, surface, decimal(cost)];
    crate::text::decimal_reads_back(cost);
    digits_hold_no_tab(decimal(cost));
    a_row_has_its_columns(two);
    a_row_has_its_columns(three);
    two_columns_are_joined(reading, surface);
    three_columns_are_joined(reading, surface, decimal(cost));
}

/// A row with a surface before, a reading in hiragana and an expected surface, none longer than 128
/// characters, adds this case, unless the same surface before and reading stand in an earlier row or
/// there are 100000 cases already.
pub proof fn a_case_row_adds_its_case(
    state: CaseRows,
    previous: Seq<char>,
    reading: Seq<char>,
    expected: Seq<char>,
    number: nat,
)
    requires
        can_lead(previous),
        0 < reading.len() <= 128,
        forall|i: int|
            0 <= i < reading.len() ==> 'ぁ' <= (#[trigger] reading[i]) <= 'ゖ' || reading[i] == 'ー',
        0 < expected.len() <= 128,
        previous.len() <= 128,
        !has_control(previous),
        !has_control(expected),
        !expected.contains('\t'),
        !reading.contains('\t'),
    ensures
        ({
            let found = case_row(
                state,
                previous + seq!['\t'] + reading + seq!['\t'] + expected,
                number,
            );
            let key = previous + seq!['\0'] + reading;
            &&& found is Ok <==> state.cases.len() != 100_000 && !state.seen.contains(key)
            &&& found is Ok ==> found->Ok_0.cases == state.cases.push(
                (previous, reading, expected),
            ) && found->Ok_0.seen == state.seen.insert(key)
        }),
{
    let two = seq![previous, reading];
    let three = seq![previous, reading, expected];
    a_row_has_its_columns(two);
    a_row_has_its_columns(three);
    two_columns_are_joined(previous, reading);
    three_columns_are_joined(previous, reading, expected);
    assert(is_case_reading(reading));
}

/// An empty row and a row that begins with `#` add nothing to any table.
pub proof fn empty_rows_and_comments_add_nothing(
    pairs: PairRows,
    entries: EntryRows,
    cases: CaseRows,
    line: Seq<char>,
    number: nat,
)
    requires
        line.len() == 0 || line[0] == '#',
    ensures
        recall_row(pairs, line, number) == Ok::<PairRows, Seq<char>>(pairs),
        external_row(entries, line, number) == Ok::<EntryRows, Seq<char>>(entries),
        private_row(entries, line, number) == Ok::<EntryRows, Seq<char>>(entries),
        case_row(cases, line, number) == Ok::<CaseRows, Seq<char>>(cases),
{
}

/// Every row counts: what a table gives is what its rows give one after the other.
pub proof fn rows_are_read_one_after_the_other<S>(
    start: S,
    rows: Seq<Seq<char>>,
    step: spec_fn(S, Seq<char>, nat) -> Result<S, Seq<char>>,
    row: Seq<char>,
)
    ensures
        fold_rows(start, rows, step, 0) == Ok::<S, Seq<char>>(start),
        match fold_rows(start, rows, step, rows.len() as int) {
            Ok(before) => fold_rows(start, rows.push(row), step, rows.len() as int + 1) == step(
                before,
                row,
                rows.len() + 1,
            ),
            Err(error) => fold_rows(start, rows.push(row), step, rows.len() as int + 1) == Err::<
                S,
                Seq<char>,
            >(error),
        },
{
    assert(rows =~= rows.push(row).take(rows.len() as int));
    earlier_rows_decide(start, rows, rows.push(row), step, rows.len() as int);
}

proof fn earlier_rows_decide<S>(
    start: S,
    rows: Seq<Seq<char>>,
    others: Seq<Seq<char>>,
    step: spec_fn(S, Seq<char>, nat) -> Result<S, Seq<char>>,
    count: int,
)
    requires
        0 <= count <= rows.len() <= others.len(),
        rows == others.take(rows.len() as int),
    ensures
        fold_rows(start, rows, step, count) == fold_rows(start, others, step, count),
    decreases count,
{
    if count > 0 {
        earlier_rows_decide(start, rows, others, step, count - 1);
        assert(rows[count - 1] == others[count - 1]);
    }
}

} // verus!
