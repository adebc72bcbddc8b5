//! The records of a dictionary pack and the text that is made of them.

use vstd::multiset::*;
use vstd::prelude::*;
use vstd::relations::*;
use vstd::seq_lib::*;
use vstd::string::*;
use vstd::utf8::*;

use crate::dictionary_pack::{
    BuildOptions, DEFAULT_WORD_COST, MAX_CONTEXT_RULES, MAX_ENTRIES, MAX_INPUT_BYTES,
    MAX_PACK_LINE_BYTES,
};
use crate::order::{
    place_text, sorted, text_before, text_order_is_asymmetric, text_order_is_irreflexive,
    text_order_is_total, text_order_is_transitive, Placement, Ranked,
};
use crate::primitives::sha256;
use crate::private_corpus::{exceeds_bytes, hex, sha256_hex};
use crate::tables::{
    column, cost_column, entry_views, fold_rows, is_skipped, message_on_row, row_message, skipped,
    the_first_error_stays, DictionaryEntry,
};
use crate::text::{
    columns_of, decimal, decimal_text, lines, lines_of, read_i32, read_unsigned,
    signed_decimal, signed_decimal_text, split_on, texts, unsigned_value,
};

verus! {

broadcast use group_to_multiset_ensures;

/// A reading, a surface and a cost.
pub type EntryView = (Seq<char>, Seq<char>, int);

/// A rule of a pack: behind `previous_surface` the reading gives `surface`, before the rules
/// with a higher number.
#[derive(Debug, PartialEq, Eq)]
pub struct ContextRule {
    pub previous_surface: String,
    pub reading: String,
    pub surface: String,
    pub priority: u16,
}

/// The mathematical value of a rule: reading, surface before, priority and surface, which is
/// also the order in which rules are compared.
pub type RuleKey = (Seq<char>, Seq<char>, int, Seq<char>);

impl View for ContextRule {
    type V = RuleKey;

    open spec fn view(&self) -> RuleKey {
        (self.reading@, self.previous_surface@, self.priority as int, self.surface@)
    }
}

pub open spec fn rule_keys(rules: Seq<ContextRule>) -> Seq<RuleKey> {
    Seq::new(rules.len(), |i: int| rules[i]@)
}

// ---------------------------------------------------------------------------
// Reading records
// ---------------------------------------------------------------------------

/// The entries after one more row.
pub open spec fn pack_entry_row(entries: Seq<EntryView>, line: Seq<char>, number: nat) -> Result<
    Seq<EntryView>,
    Seq<char>,
> {
    let columns = split_on(line, '\t');
    let cost = cost_column(columns, 2, DEFAULT_WORD_COST as int);
    if is_skipped(line) {
        Ok(entries)
    } else if encode_utf8(line).len() > MAX_PACK_LINE_BYTES {
        Err(row_message("entry input line "@, number, " exceeds the byte limit"@))
    } else if cost is None {
        Err(row_message("entry input line "@, number, " has a non-numeric cost"@))
    } else if columns.len() > 3 || column(columns, 0).len() == 0 || column(columns, 1).len() == 0 {
        Err(row_message("entry input line "@, number, " is malformed"@))
    } else if entries.len() + 1 > MAX_ENTRIES {
        Err("entries input exceeds the record limit"@)
    } else {
        Ok(entries.push((column(columns, 0), column(columns, 1), cost->0)))
    }
}

pub open spec fn pack_entry_step() -> spec_fn(Seq<EntryView>, Seq<char>, nat) -> Result<
    Seq<EntryView>,
    Seq<char>,
> {
    |entries: Seq<EntryView>, line: Seq<char>, number: nat| pack_entry_row(entries, line, number)
}

/// The entries of an input.
pub open spec fn pack_entries(source: Seq<char>) -> Result<Seq<EntryView>, Seq<char>> {
    fold_rows(Seq::empty(), lines(source), pack_entry_step(), lines(source).len() as int)
}

/// The priority in a column, if it is a number of 16 bits.
pub open spec fn priority_column(columns: Seq<Seq<char>>) -> Option<int> {
    match unsigned_value(column(columns, 3)) {
        Some(value) => if value <= u16::MAX {
            Some(value as int)
        } else {
            None
        },
        None => None,
    }
}

/// The rules after one more row.
pub open spec fn pack_rule_row(rules: Seq<RuleKey>, line: Seq<char>, number: nat) -> Result<
    Seq<RuleKey>,
    Seq<char>,
> {
    let columns = split_on(line, '\t');
    let priority = priority_column(columns);
    if is_skipped(line) {
        Ok(rules)
    } else if encode_utf8(line).len() > MAX_PACK_LINE_BYTES {
        Err(row_message("context rule input line "@, number, " exceeds the byte limit"@))
    } else if priority is None {
        Err(row_message("context rule input line "@, number, " has a non-numeric priority"@))
    } else if columns.len() > 4 || column(columns, 0).len() == 0 || column(columns, 1).len() == 0
        || column(columns, 2).len() == 0 {
        Err(row_message("context rule input line "@, number, " is malformed"@))
    } else if rules.len() + 1 > MAX_CONTEXT_RULES {
        Err("context rules input exceeds the record limit"@)
    } else {
        Ok(rules.push((column(columns, 1), column(columns, 0), priority->0, column(columns, 2))))
    }
}

pub open spec fn pack_rule_step() -> spec_fn(Seq<RuleKey>, Seq<char>, nat) -> Result<
    Seq<RuleKey>,
    Seq<char>,
> {
    |rules: Seq<RuleKey>, line: Seq<char>, number: nat| pack_rule_row(rules, line, number)
}

/// The rules of an input.
pub open spec fn pack_rules(source: Seq<char>) -> Result<Seq<RuleKey>, Seq<char>> {
    fold_rows(Seq::empty(), lines(source), pack_rule_step(), lines(source).len() as int)
}

fn column_text(columns: &Vec<String>, index: usize) -> (result: String)
    ensures
        result@ == column(texts(columns@), index as int),
{
    if index < columns.len() {
        columns[index].clone()
    } else {
        String::new()
    }
}

fn read_entry_row(line: &str, number: usize, entries: &mut Vec<DictionaryEntry>) -> (result: Result<
    (),
    String,
>)
    ensures
        match pack_entry_row(entry_views(old(entries)@), line@, number as nat) {
            Ok(views) => result is Ok && entry_views(final(entries)@) == views,
            Err(error) => result is Err && result->Err_0@ == error,
        },
{
    if skipped(line) {
        return Ok(());
    }
    if exceeds_bytes(line, MAX_PACK_LINE_BYTES) {
        return Err(message_on_row("entry input line ", number, " exceeds the byte limit"));
    }
    let columns: Vec<String> = columns_of(line, '\t');
    assert(texts(columns@).len() == columns@.len());
    let cost: Option<i32> = if columns.len() > 2 {
        assert(texts(columns@)[2] == columns@[2]@);
        read_i32(columns[2].as_str())
    } else {
        Some(DEFAULT_WORD_COST)
    };
    let cost: i32 = match cost {
        Some(cost) => cost,
        None => return Err(
            message_on_row("entry input line ", number, " has a non-numeric cost"),
        ),
    };
    let reading: String = column_text(&columns, 0);
    let surface: String = column_text(&columns, 1);
    if columns.len() > 3 || reading.as_str().is_empty() || surface.as_str().is_empty() {
        return Err(message_on_row("entry input line ", number, " is malformed"));
    }
    let ghost before = entry_views(entries@);
    assert(before.len() == entries@.len());
    if entries.len() >= MAX_ENTRIES {
        return Err("entries input exceeds the record limit".to_owned());
    }
    let entry: DictionaryEntry = DictionaryEntry { reading, surface, cost };
    let ghost view = entry@;
    entries.push(entry);
    assert(entry_views(entries@) =~= before.push(view));
    Ok(())
}

/// Reads the entries of an input.
pub fn read_entries(source: &str) -> (result: Result<Vec<DictionaryEntry>, String>)
    ensures
        match pack_entries(source@) {
            Ok(views) => result is Ok && entry_views(result->Ok_0@) == views,
            Err(error) => result is Err && result->Err_0@ == error,
        },
{
    let rows: Vec<String> = lines_of(source);
    let ghost all = lines(source@);
    let mut entries: Vec<DictionaryEntry> = Vec::new();
    assert(entry_views(entries@) =~= Seq::<EntryView>::empty());
    for index in 0..rows.len()
        invariant
            all == texts(rows@),
            all == lines(source@),
            fold_rows(Seq::empty(), all, pack_entry_step(), index as int) == Ok::<
                Seq<EntryView>,
                Seq<char>,
            >(entry_views(entries@)),
    {
        assert(all[index as int] == rows@[index as int]@);
        match read_entry_row(rows[index].as_str(), index + 1, &mut entries) {
            Ok(()) => {},
            Err(error) => {
                proof {
                    the_first_error_stays(
                        Seq::empty(),
                        all,
                        pack_entry_step(),
                        index + 1,
                        all.len() as int,
                    );
                }
                return Err(error);
            },
        }
    }
    Ok(entries)
}

fn read_rule_row(line: &str, number: usize, rules: &mut Vec<ContextRule>) -> (result: Result<
    (),
    String,
>)
    ensures
        match pack_rule_row(rule_keys(old(rules)@), line@, number as nat) {
            Ok(keys) => result is Ok && rule_keys(final(rules)@) == keys,
            Err(error) => result is Err && result->Err_0@ == error,
        },
{
    if skipped(line) {
        return Ok(());
    }
    if exceeds_bytes(line, MAX_PACK_LINE_BYTES) {
        return Err(message_on_row("context rule input line ", number, " exceeds the byte limit"));
    }
    let columns: Vec<String> = columns_of(line, '\t');
    assert(texts(columns@).len() == columns@.len());
    let last: String = column_text(&columns, 3);
    let priority: u16 = match read_unsigned(last.as_str(), u16::MAX as u64) {
        Some(value) => value as u16,
        None => return Err(
            message_on_row("context rule input line ", number, " has a non-numeric priority"),
        ),
    };
    let previous_surface: String = column_text(&columns, 0);
    let reading: String = column_text(&columns, 1);
    let surface: String = column_text(&columns, 2);
    if columns.len() > 4 || previous_surface.as_str().is_empty() || reading.as_str().is_empty()
        || surface.as_str().is_empty() {
        return Err(message_on_row("context rule input line ", number, " is malformed"));
    }
    let ghost before = rule_keys(rules@);
    assert(before.len() == rules@.len());
    if rules.len() >= MAX_CONTEXT_RULES {
        return Err("context rules input exceeds the record limit".to_owned());
    }
    let rule: ContextRule = ContextRule { previous_surface, reading, surface, priority };
    let ghost view = rule@;
    rules.push(rule);
    assert(rule_keys(rules@) =~= before.push(view));
    Ok(())
}

/// Reads the context rules of an input.
pub fn read_context_rules(source: &str) -> (result: Result<Vec<ContextRule>, String>)
    ensures
        match pack_rules(source@) {
            Ok(keys) => result is Ok && rule_keys(result->Ok_0@) == keys,
            Err(error) => result is Err && result->Err_0@ == error,
        },
{
    let rows: Vec<String> = lines_of(source);
    let ghost all = lines(source@);
    let mut rules: Vec<ContextRule> = Vec::new();
    assert(rule_keys(rules@) =~= Seq::<RuleKey>::empty());
    for index in 0..rows.len()
        invariant
            all == texts(rows@),
            all == lines(source@),
            fold_rows(Seq::empty(), all, pack_rule_step(), index as int) == Ok::<
                Seq<RuleKey>,
                Seq<char>,
            >(rule_keys(rules@)),
    {
        assert(all[index as int] == rows@[index as int]@);
        match read_rule_row(rows[index].as_str(), index + 1, &mut rules) {
            Ok(()) => {},
            Err(error) => {
                proof {
                    the_first_error_stays(
                        Seq::empty(),
                        all,
                        pack_rule_step(),
                        index + 1,
                        all.len() as int,
                    );
                }
                return Err(error);
            },
        }
    }
    Ok(rules)
}

// ---------------------------------------------------------------------------
// The order of records
// ---------------------------------------------------------------------------

/// The order of entries: by reading, surface and cost.
pub open spec fn entry_before(left: EntryView, right: EntryView) -> bool {
    text_before(left.0, right.0) || (left.0 == right.0 && (text_before(left.1, right.1) || (left.1
        == right.1 && left.2 < right.2)))
}

/// The order of rules: by reading, surface before, priority and surface.
pub open spec fn key_before(left: RuleKey, right: RuleKey) -> bool {
    text_before(left.0, right.0) || (left.0 == right.0 && (text_before(left.1, right.1) || (left.1
        == right.1 && (left.2 < right.2 || (left.2 == right.2 && text_before(left.3, right.3))))))
}

/// The order of texts is total, seen from three texts.
proof fn texts_compare(first: Seq<char>, second: Seq<char>, third: Seq<char>)
    ensures
        !text_before(first, first),
        !(text_before(first, second) && text_before(second, first)),
        text_before(first, second) || first == second || text_before(second, first),
        text_before(first, second) && text_before(second, third) ==> text_before(first, third),
        text_before(third, second) && text_before(second, first) ==> text_before(third, first),
{
    text_order_is_irreflexive(first);
    text_order_is_total(first, second);
    if text_before(first, second) {
        text_order_is_asymmetric(first, second);
        if text_before(second, third) {
            text_order_is_transitive(first, second, third);
        }
    }
    if text_before(third, second) && text_before(second, first) {
        text_order_is_transitive(third, second, first);
    }
}

proof fn entry_order(first: EntryView, second: EntryView, third: EntryView)
    ensures
        !entry_before(first, first),
        entry_before(first, second) || first == second || entry_before(second, first),
        entry_before(first, second) && entry_before(second, third) ==> entry_before(first, third),
{
    texts_compare(first.0, second.0, third.0);
    texts_compare(first.1, second.1, third.1);
}

proof fn key_order(first: RuleKey, second: RuleKey, third: RuleKey)
    ensures
        !key_before(first, first),
        key_before(first, second) || first == second || key_before(second, first),
        key_before(first, second) && key_before(second, third) ==> key_before(first, third),
{
    texts_compare(first.0, second.0, third.0);
    texts_compare(first.1, second.1, third.1);
    texts_compare(first.3, second.3, third.3);
}

/// The order of entries as a relation: the first does not come after the second.
pub open spec fn entry_order_relation() -> spec_fn(EntryView, EntryView) -> bool {
    |left: EntryView, right: EntryView| !entry_before(right, left)
}

/// The order of rules as a relation: the first does not come after the second.
pub open spec fn key_order_relation() -> spec_fn(RuleKey, RuleKey) -> bool {
    |left: RuleKey, right: RuleKey| !key_before(right, left)
}

proof fn entry_order_is_total()
    ensures
        total_ordering(entry_order_relation()),
{
    let r = entry_order_relation();
    assert forall|x: EntryView| #[trigger] r(x, x) by {
        entry_order(x, x, x);
    }
    assert forall|x: EntryView, y: EntryView| #[trigger] r(x, y) && #[trigger] r(y, x) implies x
        == y by {
        entry_order(x, y, x);
    }
    assert forall|x: EntryView, y: EntryView, z: EntryView| #[trigger]
        r(x, y) && #[trigger] r(y, z) implies r(x, z) by {
        entry_order(z, x, y);
        entry_order(x, y, z);
        entry_order(y, z, x);
        entry_order(z, y, x);
        entry_order(y, x, z);
    }
    assert forall|x: EntryView, y: EntryView| #[trigger] r(x, y) || #[trigger] r(y, x) by {
        entry_order(x, y, x);
    }
}

proof fn key_order_is_total()
    ensures
        total_ordering(key_order_relation()),
{
    let r = key_order_relation();
    assert forall|x: RuleKey| #[trigger] r(x, x) by {
        key_order(x, x, x);
    }
    assert forall|x: RuleKey, y: RuleKey| #[trigger] r(x, y) && #[trigger] r(y, x) implies x
        == y by {
        key_order(x, y, x);
    }
    assert forall|x: RuleKey, y: RuleKey, z: RuleKey| #[trigger]
        r(x, y) && #[trigger] r(y, z) implies r(x, z) by {
        key_order(z, x, y);
        key_order(x, y, z);
        key_order(y, z, x);
        key_order(z, y, x);
        key_order(y, x, z);
    }
    assert forall|x: RuleKey, y: RuleKey| #[trigger] r(x, y) || #[trigger] r(y, x) by {
        key_order(x, y, x);
    }
}

/// Entries rank by reading, surface and cost.
impl Ranked for DictionaryEntry {
    open spec fn ranks_before(&self, other: &Self) -> bool {
        entry_before(self@, other@)
    }

    proof fn ranking_laws(first: &Self, second: &Self, third: &Self) {
        entry_order(first@, second@, first@);
        entry_order(first@, third@, second@);
        entry_order(third@, second@, first@);
        entry_order(second@, first@, third@);
        entry_order(second@, third@, first@);
    }

    fn comes_before(&self, other: &Self) -> (result: bool) {
        proof {
            texts_compare(self.reading@, other.reading@, self.reading@);
            texts_compare(self.surface@, other.surface@, self.surface@);
        }
        match place_text(self.reading.as_str(), other.reading.as_str()) {
            Placement::Before => true,
            Placement::After => false,
            Placement::Same => match place_text(self.surface.as_str(), other.surface.as_str()) {
                Placement::Before => true,
                Placement::After => false,
                Placement::Same => self.cost < other.cost,
            },
        }
    }
}

/// Rules rank by reading, surface before, priority and surface.
impl Ranked for ContextRule {
    open spec fn ranks_before(&self, other: &Self) -> bool {
        key_before(self@, other@)
    }

    proof fn ranking_laws(first: &Self, second: &Self, third: &Self) {
        key_order(first@, second@, first@);
        key_order(first@, third@, second@);
        key_order(third@, second@, first@);
        key_order(second@, first@, third@);
        key_order(second@, third@, first@);
    }

    fn comes_before(&self, other: &Self) -> (result: bool) {
        proof {
            texts_compare(self.reading@, other.reading@, self.reading@);
            texts_compare(self.previous_surface@, other.previous_surface@, self.previous_surface@);
        }
        match place_text(self.reading.as_str(), other.reading.as_str()) {
            Placement::Before => true,
            Placement::After => false,
            Placement::Same => match place_text(
                self.previous_surface.as_str(),
                other.previous_surface.as_str(),
            ) {
                Placement::Before => true,
                Placement::After => false,
                Placement::Same => self.priority < other.priority || (self.priority
                    == other.priority && place_text(self.surface.as_str(), other.surface.as_str())
                    == Placement::Before),
            },
        }
    }
}

/// The entries in their order.
pub open spec fn ordered_entries(entries: Seq<EntryView>) -> Seq<EntryView> {
    entries.sort_by(entry_order_relation())
}

/// The rules in their order.
pub open spec fn ordered_rules(rules: Seq<RuleKey>) -> Seq<RuleKey> {
    rules.sort_by(key_order_relation())
}

/// The order of the input does not count: the same entries and rules come out in the same
/// order.
pub proof fn the_order_of_the_input_does_not_count(
    entries: Seq<EntryView>,
    other_entries: Seq<EntryView>,
    rules: Seq<RuleKey>,
    other_rules: Seq<RuleKey>,
)
    requires
        entries.to_multiset() == other_entries.to_multiset(),
        rules.to_multiset() == other_rules.to_multiset(),
    ensures
        ordered_entries(entries) == ordered_entries(other_entries),
        ordered_rules(rules) == ordered_rules(other_rules),
{
    entry_order_is_total();
    key_order_is_total();
    entries.lemma_sort_by_ensures(entry_order_relation());
    other_entries.lemma_sort_by_ensures(entry_order_relation());
    lemma_sorted_unique(
        ordered_entries(entries),
        ordered_entries(other_entries),
        entry_order_relation(),
    );
    rules.lemma_sort_by_ensures(key_order_relation());
    other_rules.lemma_sort_by_ensures(key_order_relation());
    lemma_sorted_unique(ordered_rules(rules), ordered_rules(other_rules), key_order_relation());
}

proof fn entry_views_keep_the_multiset(left: Seq<DictionaryEntry>, right: Seq<DictionaryEntry>)
    requires
        left.to_multiset() == right.to_multiset(),
    ensures
        entry_views(left).to_multiset() == entry_views(right).to_multiset(),
    decreases left.len(),
{
    assert(left.len() == left.to_multiset().len());
    assert(right.len() == right.to_multiset().len());
    if left.len() > 0 {
        let item = left.last();
        assert(left.contains(item));
        assert(left.to_multiset().contains(item));
        assert(right.contains(item));
        let place = choose|i: int| 0 <= i < right.len() && right[i] == item;
        let rest = right.remove(place);
        assert(left =~= left.drop_last().push(item));
        assert(right.to_multiset() =~= rest.to_multiset().insert(item));
        assert(left.drop_last().to_multiset() =~= rest.to_multiset());
        entry_views_keep_the_multiset(left.drop_last(), rest);
        assert(entry_views(left) =~= entry_views(left.drop_last()).push(item@));
        assert(entry_views(rest) =~= entry_views(right).remove(place));
        assert(entry_views(right).to_multiset() =~= entry_views(rest).to_multiset().insert(item@));
    } else {
        assert(entry_views(left) =~= entry_views(right));
    }
}

proof fn rule_keys_keep_the_multiset(left: Seq<ContextRule>, right: Seq<ContextRule>)
    requires
        left.to_multiset() == right.to_multiset(),
    ensures
        rule_keys(left).to_multiset() == rule_keys(right).to_multiset(),
    decreases left.len(),
{
    assert(left.len() == left.to_multiset().len());
    assert(right.len() == right.to_multiset().len());
    if left.len() > 0 {
        let item = left.last();
        assert(left.contains(item));
        assert(left.to_multiset().contains(item));
        assert(right.contains(item));
        let place = choose|i: int| 0 <= i < right.len() && right[i] == item;
        let rest = right.remove(place);
        assert(left =~= left.drop_last().push(item));
        assert(right.to_multiset() =~= rest.to_multiset().insert(item));
        assert(left.drop_last().to_multiset() =~= rest.to_multiset());
        rule_keys_keep_the_multiset(left.drop_last(), rest);
        assert(rule_keys(left) =~= rule_keys(left.drop_last()).push(item@));
        assert(rule_keys(rest) =~= rule_keys(right).remove(place));
        assert(rule_keys(right).to_multiset() =~= rule_keys(rest).to_multiset().insert(item@));
    } else {
        assert(rule_keys(left) =~= rule_keys(right));
    }
}

fn sort_entries(entries: Vec<DictionaryEntry>) -> (result: Vec<DictionaryEntry>)
    ensures
        entry_views(result@) == ordered_entries(entry_views(entries@)),
{
    let ghost before = entries@;
    let result: Vec<DictionaryEntry> = sorted(entries);
    proof {
        let views = entry_views(before);
        let order = entry_order_relation();
        entry_order_is_total();
        entry_views_keep_the_multiset(before, result@);
        views.lemma_sort_by_ensures(order);
        assert forall|i: int, j: int| 0 <= i < j < result@.len() implies #[trigger] order(
            entry_views(result@)[i],
            entry_views(result@)[j],
        ) by {
            assert(!result@[j].ranks_before(&result@[i]));
        }
        lemma_sorted_unique(entry_views(result@), ordered_entries(views), order);
    }
    result
}

fn sort_rules(rules: Vec<ContextRule>) -> (result: Vec<ContextRule>)
    ensures
        rule_keys(result@) == ordered_rules(rule_keys(rules@)),
{
    let ghost before = rules@;
    let result: Vec<ContextRule> = sorted(rules);
    proof {
        let keys = rule_keys(before);
        let order = key_order_relation();
        key_order_is_total();
        rule_keys_keep_the_multiset(before, result@);
        keys.lemma_sort_by_ensures(order);
        assert forall|i: int, j: int| 0 <= i < j < result@.len() implies #[trigger] order(
            rule_keys(result@)[i],
            rule_keys(result@)[j],
        ) by {
            assert(!result@[j].ranks_before(&result@[i]));
        }
        lemma_sorted_unique(rule_keys(result@), ordered_rules(keys), order);
    }
    result
}

// ---------------------------------------------------------------------------
// The text of a pack
// ---------------------------------------------------------------------------

/// The lines of the entries.
pub open spec fn entry_lines(entries: Seq<EntryView>) -> Seq<char>
    decreases entries.len(),
{
    if entries.len() == 0 {
        Seq::empty()
    } else {
        entry_lines(entries.drop_last()) + entries.last().0 + "\t"@ + entries.last().1 + "\t"@
            + signed_decimal(entries.last().2) + "\n"@
    }
}

/// The lines of the rules.
pub open spec fn key_lines(rules: Seq<RuleKey>) -> Seq<char>
    decreases rules.len(),
{
    if rules.len() == 0 {
        Seq::empty()
    } else {
        key_lines(rules.drop_last()) + rules.last().1 + "\t"@ + rules.last().0 + "\t"@
            + rules.last().3 + "\t"@ + decimal(rules.last().2 as nat) + "\n"@
    }
}

/// The records of a pack as text. Rules stand behind a heading of their own.
pub open spec fn payload(entries: Seq<EntryView>, rules: Option<Seq<RuleKey>>) -> Seq<char> {
    match rules {
        None => entry_lines(entries),
        Some(keys) => entry_lines(entries) + "# context-rules\n"@ + key_lines(keys),
    }
}

/// The heading and the name of the digest of a pack with or without rules.
pub open spec fn heading(with_rules: bool) -> Seq<char> {
    if with_rules {
        "# slime-dictionary-pack-v3\n# id: "@
    } else {
        "# slime-dictionary-pack-v2\n# id: "@
    }
}

pub open spec fn digest_heading(with_rules: bool) -> Seq<char> {
    if with_rules {
        "\n# payload-sha256: "@
    } else {
        "\n# entries-sha256: "@
    }
}

/// The text of a pack.
pub open spec fn pack_text(
    options: BuildOptions,
    entries: Seq<EntryView>,
    rules: Option<Seq<RuleKey>>,
) -> Seq<char> {
    let records = payload(entries, rules);
    heading(rules is Some) + options.id@ + "\n# name: "@ + options.name@ + "\n# version: "@
        + options.version@ + "\n# license: "@ + options.license@ + "\n# minimum-slime-version: "@
        + options.minimum_slime_version@ + "\n# published-at: "@ + options.published_at@
        + "\n# provenance: "@ + options.provenance@ + digest_heading(rules is Some) + hex(
        sha256(encode_utf8(records)),
    ) + "\n# entries\n"@ + records
}

fn render_entries(entries: &[DictionaryEntry]) -> (result: String)
    ensures
        result@ == entry_lines(entry_views(entries@)),
{
    let ghost all = entry_views(entries@);
    let mut output: String = String::new();
    assert(all.take(0) =~= Seq::<EntryView>::empty());
    for index in 0..entries.len()
        invariant
            all == entry_views(entries@),
            output@ == entry_lines(all.take(index as int)),
    {
        assert(all.take(index + 1).drop_last() =~= all.take(index as int));
        assert(all.take(index + 1).last() == entries@[index as int]@);
        output.append(entries[index].reading.as_str());
        output.append("\t");
        output.append(entries[index].surface.as_str());
        output.append("\t");
        let cost: String = signed_decimal_text(entries[index].cost as i64);
        output.append(cost.as_str());
        output.append("\n");
    }
    assert(all.take(all.len() as int) =~= all);
    output
}

fn render_rules(rules: &[ContextRule]) -> (result: String)
    ensures
        result@ == key_lines(rule_keys(rules@)),
{
    let ghost all = rule_keys(rules@);
    let mut output: String = String::new();
    assert(all.take(0) =~= Seq::<RuleKey>::empty());
    for index in 0..rules.len()
        invariant
            all == rule_keys(rules@),
            output@ == key_lines(all.take(index as int)),
    {
        assert(all.take(index + 1).drop_last() =~= all.take(index as int));
        assert(all.take(index + 1).last() == rules@[index as int]@);
        output.append(rules[index].previous_surface.as_str());
        output.append("\t");
        output.append(rules[index].reading.as_str());
        output.append("\t");
        output.append(rules[index].surface.as_str());
        output.append("\t");
        let priority: String = decimal_text(rules[index].priority as u64);
        output.append(priority.as_str());
        output.append("\n");
    }
    assert(all.take(all.len() as int) =~= all);
    output
}

/// A pack before it is validated and written.
#[derive(Debug, PartialEq, Eq)]
pub struct PackDraft {
    pub format_version: u8,
    pub source: String,
    pub content_sha256: String,
}

/// The entries that an input gives; none if there is no input.
pub open spec fn given_entries(source: Option<Seq<char>>) -> Result<Seq<EntryView>, Seq<char>> {
    match source {
        None => Ok(Seq::empty()),
        Some(text) => pack_entries(text),
    }
}

/// The rules that an input gives, if there is one.
pub open spec fn given_rules(source: Option<Seq<char>>) -> Result<Option<Seq<RuleKey>>, Seq<char>> {
    match source {
        None => Ok(None),
        Some(text) => match pack_rules(text) {
            Ok(rules) => Ok(Some(rules)),
            Err(error) => Err(error),
        },
    }
}

/// The records of the pack that the inputs give, in the order of the pack.
pub open spec fn drafted_records(entries: Option<Seq<char>>, rules: Option<Seq<char>>) -> Seq<char> {
    payload(
        ordered_entries(given_entries(entries)->Ok_0),
        match given_rules(rules)->Ok_0 {
            Some(all) => Some(ordered_rules(all)),
            None => None,
        },
    )
}

/// The pack that the inputs give, or why they give none.
pub open spec fn drafted(
    options: BuildOptions,
    entries: Option<Seq<char>>,
    rules: Option<Seq<char>>,
) -> Result<Seq<char>, Seq<char>> {
    if entries is None && rules is None {
        Err("build requires --entries or --context-rules"@)
    } else {
        match given_entries(entries) {
            Err(error) => Err(error),
            Ok(views) => match given_rules(rules) {
                Err(error) => Err(error),
                Ok(keys) => {
                    let text = pack_text(
                        options,
                        ordered_entries(views),
                        match keys {
                            Some(all) => Some(ordered_rules(all)),
                            None => None,
                        },
                    );
                    if encode_utf8(text).len() > MAX_INPUT_BYTES {
                        Err("generated dictionary pack exceeds the byte limit"@)
                    } else {
                        Ok(text)
                    }
                },
            },
        }
    }
}

/// Inputs that hold the same records give the same pack with the same digest, in whatever order
/// they stand.
pub proof fn packs_do_not_depend_on_the_order_of_the_input(
    options: BuildOptions,
    entries: Option<Seq<char>>,
    other_entries: Option<Seq<char>>,
    rules: Option<Seq<char>>,
    other_rules: Option<Seq<char>>,
)
    requires
        given_entries(entries) is Ok,
        given_entries(other_entries) is Ok,
        given_rules(rules) is Ok,
        given_rules(other_rules) is Ok,
        given_entries(entries)->Ok_0.to_multiset() == given_entries(
            other_entries,
        )->Ok_0.to_multiset(),
        rules is Some <==> other_rules is Some,
        rules is Some ==> given_rules(rules)->Ok_0->0.to_multiset() == given_rules(
            other_rules,
        )->Ok_0->0.to_multiset(),
        entries is None && rules is None <==> other_entries is None && other_rules is None,
    ensures
        drafted(options, entries, rules) == drafted(options, other_entries, other_rules),
        drafted_records(entries, rules) == drafted_records(other_entries, other_rules),
{
    let nothing = Seq::<RuleKey>::empty();
    the_order_of_the_input_does_not_count(
        given_entries(entries)->Ok_0,
        given_entries(other_entries)->Ok_0,
        if rules is Some {
            given_rules(rules)->Ok_0->0
        } else {
            nothing
        },
        if rules is Some {
            given_rules(other_rules)->Ok_0->0
        } else {
            nothing
        },
    );
}

/// Puts the text of a pack together.
fn render_pack(options: &BuildOptions, records: &str, with_rules: bool) -> (result: PackDraft)
    ensures
        result.format_version == (if with_rules {
            3u8
        } else {
            2u8
        }),
        result.content_sha256@ == hex(sha256(encode_utf8(records@))),
        result.source@ == heading(with_rules) + options.id@ + "\n# name: "@ + options.name@
            + "\n# version: "@ + options.version@ + "\n# license: "@ + options.license@
            + "\n# minimum-slime-version: "@ + options.minimum_slime_version@
            + "\n# published-at: "@ + options.published_at@ + "\n# provenance: "@
            + options.provenance@ + digest_heading(with_rules) + hex(
            sha256(encode_utf8(records@)),
        ) + "\n# entries\n"@ + records@,
{
    let content_sha256: String = sha256_hex(records.as_bytes());
    let mut source: String = if with_rules {
        "# slime-dictionary-pack-v3\n# id: ".to_owned()
    } else {
        "# slime-dictionary-pack-v2\n# id: ".to_owned()
    };
    source.append(options.id.as_str());
    source.append("\n# name: ");
    source.append(options.name.as_str());
    source.append("\n# version: ");
    source.append(options.version.as_str());
    source.append("\n# license: ");
    source.append(options.license.as_str());
    source.append("\n# minimum-slime-version: ");
    source.append(options.minimum_slime_version.as_str());
    source.append("\n# published-at: ");
    source.append(options.published_at.as_str());
    source.append("\n# provenance: ");
    source.append(options.provenance.as_str());
    if with_rules {
        source.append("\n# payload-sha256: ");
    } else {
        source.append("\n# entries-sha256: ");
    }
    source.append(content_sha256.as_str());
    source.append("\n# entries\n");
    source.append(records);
    PackDraft {
        format_version: if with_rules {
            3
        } else {
            2
        },
        source,
        content_sha256,
    }
}

/// Builds the text of a pack from its inputs.
pub fn build_pack(options: &BuildOptions, entries: Option<&str>, rules: Option<&str>) -> (result:
    Result<PackDraft, String>)
    ensures
        ({
            let entry_source = match entries {
                Some(text) => Some(text@),
                None => None,
            };
            let rule_source = match rules {
                Some(text) => Some(text@),
                None => None,
            };
            match drafted(*options, entry_source, rule_source) {
                Ok(text) => {
                    &&& result is Ok
                    &&& result->Ok_0.source@ == text
                    &&& result->Ok_0.content_sha256@ == hex(
                        sha256(encode_utf8(drafted_records(entry_source, rule_source))),
                    )
                    &&& result->Ok_0.format_version == (if rules is Some {
                        3u8
                    } else {
                        2u8
                    })
                },
                Err(error) => result is Err && result->Err_0@ == error,
            }
        }),
{
    if entries.is_none() && rules.is_none() {
        return Err("build requires --entries or --context-rules".to_owned());
    }
    let words: Vec<DictionaryEntry> = match entries {
        Some(text) => match read_entries(text) {
            Ok(words) => words,
            Err(error) => return Err(error),
        },
        None => {
            let words: Vec<DictionaryEntry> = Vec::new();
            assert(entry_views(words@) =~= Seq::<EntryView>::empty());
            words
        },
    };
    let words: Vec<DictionaryEntry> = sort_entries(words);
    let mut records: String = render_entries(words.as_slice());
    if let Some(text) = rules {
        let found: Vec<ContextRule> = match read_context_rules(text) {
            Ok(found) => found,
            Err(error) => return Err(error),
        };
        let found: Vec<ContextRule> = sort_rules(found);
        records.append("# context-rules\n");
        let lines: String = render_rules(found.as_slice());
        records.append(lines.as_str());
    }
    let draft: PackDraft = render_pack(options, records.as_str(), rules.is_some());
    if exceeds_bytes(draft.source.as_str(), MAX_INPUT_BYTES) {
        return Err("generated dictionary pack exceeds the byte limit".to_owned());
    }
    Ok(draft)
}

// ---------------------------------------------------------------------------
// What the rows and the lines say
// ---------------------------------------------------------------------------

/// A row with a reading, a surface and a cost of 32 bits adds this entry as it is written; without a
/// cost, it has 500. A row has at most 4096 bytes, and there are at most 250000 entries.
pub proof fn an_entry_row_adds_its_entry(
    entries: Seq<EntryView>,
    reading: Seq<char>,
    surface: Seq<char>,
    cost: nat,
    number: nat,
)
    requires
        crate::tables::can_lead(reading),
        surface.len() > 0,
        !surface.contains('\t'),
        cost <= i32::MAX,
    ensures
        ({
            let short = reading + seq!['\t'] + surface;
            let long = reading + seq!['\t'] + surface + seq!['\t'] + decimal(cost);
            let without = pack_entry_row(entries, short, number);
            let with = pack_entry_row(entries, long, number);
            &&& without is Ok <==> encode_utf8(short).len() <= 4_096 && entries.len() < 250_000
            &&& without is Ok ==> without->Ok_0 == entries.push((reading, surface, 500))
            &&& with is Ok <==> encode_utf8(long).len() <= 4_096 && entries.len() < 250_000
            &&& with is Ok ==> with->Ok_0 == entries.push((reading, surface, cost as int))
        }),
{
    crate::text::decimal_reads_back(cost);
    crate::tables::digits_hold_no_tab(decimal(cost));
    crate::tables::a_row_has_its_columns(seq![reading, surface]);
    crate::tables::a_row_has_its_columns(seq![reading, surface, decimal(cost)]);
    crate::tables::two_columns_are_joined(reading, surface);
    crate::tables::three_columns_are_joined(reading, surface, decimal(cost));
}

/// A row with a surface before, a reading, a surface and a priority of 16 bits adds this rule. A row
/// has at most 4096 bytes, and there are at most 100000 rules.
pub proof fn a_rule_row_adds_its_rule(
    rules: Seq<RuleKey>,
    previous: Seq<char>,
    reading: Seq<char>,
    surface: Seq<char>,
    priority: nat,
    number: nat,
)
    requires
        crate::tables::can_lead(previous),
        reading.len() > 0,
        surface.len() > 0,
        !reading.contains('\t'),
        !surface.contains('\t'),
    ensures
        ({
            let row = previous + seq!['\t'] + reading + seq!['\t'] + surface + seq!['\t'] + decimal(
                priority,
            );
            let found = pack_rule_row(rules, row, number);
            &&& found is Ok <==> encode_utf8(row).len() <= 4_096 && rules.len() < 100_000
                && priority <= 65_535
            &&& found is Ok ==> found->Ok_0 == rules.push(
                (reading, previous, priority as int, surface),
            )
        }),
{
    let digits = decimal(priority);
    let columns = seq![previous, reading, surface, digits];
    crate::text::decimal_reads_back(priority);
    crate::tables::digits_hold_no_tab(digits);
    crate::tables::a_row_has_its_columns(columns);
    crate::tables::three_columns_are_joined(previous, reading, surface);
    assert(columns.drop_last() =~= seq![previous, reading, surface]);
    let start = previous + seq!['\t'] + reading + seq!['\t'] + surface;
    assert(start.push('\t') =~= start + seq!['\t']);
}

/// The records of a pack stand in order: none comes before an earlier one, and none is lost or added.
pub proof fn records_stand_in_order(entries: Seq<EntryView>, rules: Seq<RuleKey>)
    ensures
        ordered_entries(entries).to_multiset() == entries.to_multiset(),
        ordered_rules(rules).to_multiset() == rules.to_multiset(),
        forall|i: int, j: int|
            0 <= i < j < ordered_entries(entries).len() ==> {
                let (left, right) = (
                    #[trigger] ordered_entries(entries)[i],
                    #[trigger] ordered_entries(entries)[j],
                );
                &&& !text_before(right.0, left.0)
                &&& right.0 == left.0 ==> !text_before(right.1, left.1)
                &&& right.0 == left.0 && right.1 == left.1 ==> left.2 <= right.2
            },
        forall|i: int, j: int|
            0 <= i < j < ordered_rules(rules).len() ==> {
                let (left, right) = (
                    #[trigger] ordered_rules(rules)[i],
                    #[trigger] ordered_rules(rules)[j],
                );
                &&& !text_before(right.0, left.0)
                &&& right.0 == left.0 ==> !text_before(right.1, left.1)
                &&& right.0 == left.0 && right.1 == left.1 ==> left.2 <= right.2
                &&& right.0 == left.0 && right.1 == left.1 && right.2 == left.2 ==> !text_before(
                    right.3,
                    left.3,
                )
            },
{
    entry_order_is_total();
    key_order_is_total();
    entries.lemma_sort_by_ensures(entry_order_relation());
    rules.lemma_sort_by_ensures(key_order_relation());
    let first = ordered_entries(entries);
    assert forall|i: int, j: int| 0 <= i < j < first.len() implies !entry_before(
        #[trigger] first[j],
        #[trigger] first[i],
    ) by {
        assert(entry_order_relation()(first[i], first[j]));
    }
    let second = ordered_rules(rules);
    assert forall|i: int, j: int| 0 <= i < j < second.len() implies !key_before(
        #[trigger] second[j],
        #[trigger] second[i],
    ) by {
        assert(key_order_relation()(second[i], second[j]));
    }
}

} // verus!
