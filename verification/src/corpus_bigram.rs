//! Ranking by the transitions that an annotated corpus holds: from each token to the next, and
//! to the one after it.

use vstd::prelude::*;

use crate::candidate::{cost_difference, difference_of_costs};
use crate::corpus::{line_tokens, pairs, parse_annotated_corpus_line, TextPair};
use crate::order::{
    place_text, text_before, text_order_is_irreflexive, text_order_is_total,
    text_order_is_transitive, Placement,
};
use crate::text::{count_text, decimal, joined, lines, lines_of, texts};

verus! {

/// The surface that stands before the first token of a line.
pub const BOS: &'static str = "<BOS>";

/// The surface that stands behind the last token of a line.
pub const EOS: &'static str = "<EOS>";

/// The transition from one token to another.
pub type Transition = (TextPair, TextPair);

/// The dictionary order of pairs of texts.
pub open spec fn pair_before(left: TextPair, right: TextPair) -> bool {
    text_before(left.0, right.0) || (left.0 == right.0 && text_before(left.1, right.1))
}

/// The dictionary order of transitions.
pub open spec fn transition_before(left: Transition, right: Transition) -> bool {
    pair_before(left.0, right.0) || (left.0 == right.0 && pair_before(left.1, right.1))
}

/// Pairs of texts have a total order.
pub proof fn pair_order(first: TextPair, second: TextPair, third: TextPair)
    ensures
        !pair_before(first, first),
        pair_before(first, second) && pair_before(second, third) ==> pair_before(first, third),
        pair_before(first, second) || first == second || pair_before(second, first),
{
    text_order_is_irreflexive(first.0);
    text_order_is_irreflexive(first.1);
    text_order_is_total(first.0, second.0);
    text_order_is_total(first.1, second.1);
    if pair_before(first, second) && pair_before(second, third) {
        if text_before(first.0, second.0) && text_before(second.0, third.0) {
            text_order_is_transitive(first.0, second.0, third.0);
        }
        if text_before(first.1, second.1) && text_before(second.1, third.1) {
            text_order_is_transitive(first.1, second.1, third.1);
        }
    }
}

/// Transitions have a total order.
pub proof fn transition_order(first: Transition, second: Transition, third: Transition)
    ensures
        !transition_before(first, first),
        transition_before(first, second) && transition_before(second, third) ==> transition_before(
            first,
            third,
        ),
        transition_before(first, second) || first == second || transition_before(second, first),
{
    pair_order(first.0, second.0, third.0);
    pair_order(first.1, second.1, third.1);
}

/// A transition with the number of times that the corpus holds it.
#[derive(Debug, PartialEq, Eq)]
pub struct Entry {
    pub previous_surface: String,
    pub previous_reading: String,
    pub current_surface: String,
    pub current_reading: String,
    pub count: u32,
}

impl Entry {
    pub open spec fn key(self) -> Transition {
        (
            (self.previous_surface@, self.previous_reading@),
            (self.current_surface@, self.current_reading@),
        )
    }
}

/// Where the entry stands to a transition.
fn place_entry(entry: &Entry, previous: (&str, &str), current: (&str, &str)) -> (result: Placement)
    ensures
        ({
            let key = ((previous.0@, previous.1@), (current.0@, current.1@));
            &&& result == Placement::Before <==> transition_before(entry.key(), key)
            &&& result == Placement::Same <==> entry.key() == key
        }),
{
    proof {
        text_order_is_irreflexive(previous.0@);
        text_order_is_irreflexive(previous.1@);
        text_order_is_irreflexive(current.0@);
        text_order_is_irreflexive(current.1@);
    }
    let first: Placement = place_text(entry.previous_surface.as_str(), previous.0);
    if first != Placement::Same {
        return first;
    }
    let second: Placement = place_text(entry.previous_reading.as_str(), previous.1);
    if second != Placement::Same {
        return second;
    }
    let third: Placement = place_text(entry.current_surface.as_str(), current.0);
    if third != Placement::Same {
        return third;
    }
    place_text(entry.current_reading.as_str(), current.1)
}

/// How often each transition was counted.
#[derive(Debug)]
pub struct TransitionCounts {
    entries: Vec<Entry>,
}

/// The number that was counted for a transition; zero if none was.
pub open spec fn count_in(counts: Map<Transition, u32>, key: Transition) -> u32 {
    if counts.contains_key(key) {
        counts[key]
    } else {
        0
    }
}

/// One more, as long as the number grows.
pub open spec fn one_more(value: u32) -> u32 {
    if value == u32::MAX {
        value
    } else {
        (value + 1) as u32
    }
}

/// The counts after one more transition.
pub open spec fn incremented(counts: Map<Transition, u32>, key: Transition) -> Map<Transition, u32> {
    counts.insert(key, one_more(count_in(counts, key)))
}

/// The counts after some more transitions.
pub open spec fn all_incremented(counts: Map<Transition, u32>, keys: Seq<Transition>) -> Map<
    Transition,
    u32,
>
    decreases keys.len(),
{
    if keys.len() == 0 {
        counts
    } else {
        incremented(all_incremented(counts, keys.drop_last()), keys.last())
    }
}

pub open spec fn keys_of(entries: Seq<Entry>) -> Seq<Transition> {
    Seq::new(entries.len(), |i: int| entries[i].key())
}

pub open spec fn keys_increase(keys: Seq<Transition>) -> bool {
    forall|i: int, j: int|
        0 <= i < j < keys.len() ==> transition_before(#[trigger] keys[i], #[trigger] keys[j])
}

/// What the entries count.
pub open spec fn entry_map(entries: Seq<Entry>) -> Map<Transition, u32>
    decreases entries.len(),
{
    if entries.len() == 0 {
        Map::empty()
    } else {
        entry_map(entries.drop_last()).insert(entries.last().key(), entries.last().count)
    }
}

proof fn entry_map_lookup(entries: Seq<Entry>, index: int)
    requires
        keys_increase(keys_of(entries)),
        0 <= index < entries.len(),
    ensures
        entry_map(entries).contains_key(entries[index].key()),
        entry_map(entries)[entries[index].key()] == entries[index].count,
    decreases entries.len(),
{
    let keys = keys_of(entries);
    if index < entries.len() - 1 {
        let shorter = entries.drop_last();
        assert forall|i: int, j: int| 0 <= i < j < shorter.len() implies transition_before(
            #[trigger] keys_of(shorter)[i],
            #[trigger] keys_of(shorter)[j],
        ) by {
            assert(keys_of(shorter)[i] == keys[i] && keys_of(shorter)[j] == keys[j]);
        }
        entry_map_lookup(shorter, index);
        assert(transition_before(keys[index], keys[entries.len() - 1]));
        transition_order(keys[index], keys[index], keys[index]);
    }
}

proof fn entry_map_domain(entries: Seq<Entry>, key: Transition)
    ensures
        entry_map(entries).contains_key(key) <==> keys_of(entries).contains(key),
    decreases entries.len(),
{
    let keys = keys_of(entries);
    if entries.len() > 0 {
        let shorter = entries.drop_last();
        entry_map_domain(shorter, key);
        assert(keys =~= keys_of(shorter).push(entries.last().key()));
        if keys_of(shorter).contains(key) {
            let i = choose|i: int| 0 <= i < keys_of(shorter).len() && keys_of(shorter)[i] == key;
            assert(keys[i] == key);
        }
        if key == entries.last().key() {
            assert(keys[entries.len() - 1] == key);
        }
    }
}

impl View for TransitionCounts {
    type V = Map<Transition, u32>;

    closed spec fn view(&self) -> Map<Transition, u32> {
        entry_map(self.entries@)
    }
}

impl TransitionCounts {
    /// The entries stand in increasing order, so no transition stands twice.
    pub closed spec fn well_formed(&self) -> bool {
        keys_increase(keys_of(self.entries@))
    }

    pub fn new() -> (result: Self)
        ensures
            result.well_formed(),
            result@ == Map::<Transition, u32>::empty(),
    {
        TransitionCounts { entries: Vec::new() }
    }

    /// The number of different transitions.
    pub closed spec fn entry_count(&self) -> nat {
        self.entries@.len()
    }

    /// The number of different transitions is the number of keys.
    pub proof fn entry_count_is_the_number_of_transitions(&self)
        requires
            self.well_formed(),
        ensures
            self@.dom().finite(),
            self.entry_count() == self@.dom().len(),
    {
        let keys = keys_of(self.entries@);
        assert forall|i: int, j: int| 0 <= i < keys.len() && 0 <= j < keys.len() && i
            != j implies keys[i] != keys[j] by {
            transition_order(keys[i], keys[i], keys[i]);
            if i < j {
                assert(transition_before(keys[i], keys[j]));
            } else {
                assert(transition_before(keys[j], keys[i]));
            }
        }
        keys.unique_seq_to_set();
        assert forall|key: Transition| self@.dom().contains(key) == keys.to_set().contains(key) by {
            entry_map_domain(self.entries@, key);
        }
        assert(self@.dom() =~= keys.to_set());
    }

    pub fn len(&self) -> (result: usize)
        ensures
            result == self.entry_count(),
    {
        self.entries.len()
    }

    /// The transitions in increasing order, with their counts.
    pub closed spec fn listed(&self) -> Seq<(Transition, u32)> {
        Seq::new(
            self.entries@.len(),
            |i: int| (self.entries@[i].key(), self.entries@[i].count),
        )
    }

    /// The list holds every transition once, in increasing order, with its count.
    pub proof fn every_transition_is_listed(&self)
        requires
            self.well_formed(),
        ensures
            self.listed().len() == self.entry_count(),
            forall|i: int, j: int|
                0 <= i < j < self.listed().len() ==> transition_before(
                    (#[trigger] self.listed()[i]).0,
                    (#[trigger] self.listed()[j]).0,
                ),
            forall|i: int|
                0 <= i < self.listed().len() ==> self@.contains_key((#[trigger] self.listed()[i]).0)
                    && self@[self.listed()[i].0] == self.listed()[i].1,
            forall|key: Transition|
                self@.contains_key(key) ==> exists|i: int|
                    0 <= i < self.listed().len() && (#[trigger] self.listed()[i]).0 == key,
    {
        let keys = keys_of(self.entries@);
        assert forall|i: int, j: int| 0 <= i < j < self.listed().len() implies transition_before(
            (#[trigger] self.listed()[i]).0,
            (#[trigger] self.listed()[j]).0,
        ) by {
            assert(transition_before(keys[i], keys[j]));
        }
        assert forall|i: int| 0 <= i < self.listed().len() implies self@.contains_key(
            (#[trigger] self.listed()[i]).0,
        ) && self@[self.listed()[i].0] == self.listed()[i].1 by {
            entry_map_lookup(self.entries@, i);
        }
        assert forall|key: Transition| self@.contains_key(key) implies exists|i: int|
            0 <= i < self.listed().len() && (#[trigger] self.listed()[i]).0 == key by {
            entry_map_domain(self.entries@, key);
            let i = choose|i: int| 0 <= i < keys.len() && keys[i] == key;
            assert(self.listed()[i].0 == key);
        }
    }

    /// The entry with this number.
    pub fn entry(&self, index: usize) -> (result: &Entry)
        requires
            index < self.entry_count(),
        ensures
            (result.key(), result.count) == self.listed()[index as int],
            self.listed().len() == self.entry_count(),
    {
        &self.entries[index]
    }

    /// The number of entries that come before the transition.
    fn place_of(&self, previous: (&str, &str), current: (&str, &str)) -> (result: usize)
        requires
            self.well_formed(),
        ensures
            result <= self.entries@.len(),
            ({
                let key = ((previous.0@, previous.1@), (current.0@, current.1@));
                &&& forall|i: int|
                    0 <= i < result ==> transition_before(#[trigger] keys_of(self.entries@)[i], key)
                &&& forall|i: int|
                    result <= i < self.entries@.len() ==> !transition_before(
                        #[trigger] keys_of(self.entries@)[i],
                        key,
                    )
            }),
    {
        let ghost keys = keys_of(self.entries@);
        let ghost key = ((previous.0@, previous.1@), (current.0@, current.1@));
        let mut low: usize = 0;
        let mut high: usize = self.entries.len();
        while low < high
            invariant
                self.well_formed(),
                keys == keys_of(self.entries@),
                key == ((previous.0@, previous.1@), (current.0@, current.1@)),
                low <= high <= self.entries@.len(),
                forall|i: int| 0 <= i < low ==> transition_before(#[trigger] keys[i], key),
                forall|i: int| high <= i < keys.len() ==> !transition_before(#[trigger] keys[i], key),
            decreases high - low,
        {
            let middle: usize = low + (high - low) / 2;
            assert(keys[middle as int] == self.entries@[middle as int].key());
            if place_entry(&self.entries[middle], previous, current) == Placement::Before {
                assert forall|i: int| 0 <= i < middle + 1 implies transition_before(
                    #[trigger] keys[i],
                    key,
                ) by {
                    if i < middle {
                        transition_order(keys[i], keys[middle as int], key);
                    }
                }
                low = middle + 1;
            } else {
                assert forall|i: int| middle <= i < keys.len() implies !transition_before(
                    #[trigger] keys[i],
                    key,
                ) by {
                    if i > middle && transition_before(keys[i], key) {
                        transition_order(keys[middle as int], keys[i], key);
                    }
                }
                high = middle;
            }
        }
        low
    }

    proof fn a_missing_key_is_nowhere(&self, key: Transition, place: int)
        requires
            self.well_formed(),
            0 <= place <= self.entries@.len(),
            forall|i: int|
                0 <= i < place ==> transition_before(#[trigger] keys_of(self.entries@)[i], key),
            forall|i: int|
                place <= i < self.entries@.len() ==> !transition_before(
                    #[trigger] keys_of(self.entries@)[i],
                    key,
                ),
            place < self.entries@.len() ==> self.entries@[place].key() != key,
        ensures
            !self@.contains_key(key),
    {
        let keys = keys_of(self.entries@);
        entry_map_domain(self.entries@, key);
        if keys.contains(key) {
            let i = choose|i: int| 0 <= i < keys.len() && keys[i] == key;
            transition_order(key, key, key);
            if place < i {
                assert(keys[place] == self.entries@[place].key());
                assert(transition_before(keys[place], keys[i]));
            }
        }
    }

    /// Whether the transition was counted.
    pub fn holds(&self, previous: (&str, &str), current: (&str, &str)) -> (result: bool)
        requires
            self.well_formed(),
        ensures
            result == self@.contains_key(((previous.0@, previous.1@), (current.0@, current.1@))),
    {
        let ghost key = ((previous.0@, previous.1@), (current.0@, current.1@));
        let place: usize = self.place_of(previous, current);
        if place < self.entries.len() && place_entry(&self.entries[place], previous, current)
            == Placement::Same {
            proof {
                entry_map_lookup(self.entries@, place as int);
            }
            true
        } else {
            proof {
                self.a_missing_key_is_nowhere(key, place as int);
            }
            false
        }
    }

    /// How often the transition was counted.
    pub fn count(&self, previous: (&str, &str), current: (&str, &str)) -> (result: u32)
        requires
            self.well_formed(),
        ensures
            result == count_in(self@, ((previous.0@, previous.1@), (current.0@, current.1@))),
    {
        let ghost key = ((previous.0@, previous.1@), (current.0@, current.1@));
        let place: usize = self.place_of(previous, current);
        if place < self.entries.len() && place_entry(&self.entries[place], previous, current)
            == Placement::Same {
            proof {
                entry_map_lookup(self.entries@, place as int);
            }
            self.entries[place].count
        } else {
            proof {
                self.a_missing_key_is_nowhere(key, place as int);
            }
            0
        }
    }

    /// Counts the transition once more.
    pub fn increment(&mut self, previous: (&str, &str), current: (&str, &str))
        requires
            old(self).well_formed(),
        ensures
            final(self).well_formed(),
            final(self)@ == incremented(
                old(self)@,
                ((previous.0@, previous.1@), (current.0@, current.1@)),
            ),
    {
        let ghost key = ((previous.0@, previous.1@), (current.0@, current.1@));
        let ghost before = self.entries@;
        let place: usize = self.place_of(previous, current);
        if place < self.entries.len() && place_entry(&self.entries[place], previous, current)
            == Placement::Same {
            let count: u32 = self.entries[place].count;
            let grown: u32 = count.saturating_add(1);
            let entry: Entry = Entry {
                previous_surface: previous.0.to_owned(),
                previous_reading: previous.1.to_owned(),
                current_surface: current.0.to_owned(),
                current_reading: current.1.to_owned(),
                count: grown,
            };
            proof {
                entry_map_lookup(before, place as int);
            }
            self.entries[place] = entry;
            proof {
                replacing_an_entry(before, self.entries@, place as int, key);
            }
        } else {
            proof {
                self.a_missing_key_is_nowhere(key, place as int);
            }
            let entry: Entry = Entry {
                previous_surface: previous.0.to_owned(),
                previous_reading: previous.1.to_owned(),
                current_surface: current.0.to_owned(),
                current_reading: current.1.to_owned(),
                count: 1,
            };
            self.entries.insert(place, entry);
            proof {
                entry_map_domain(before, key);
                inserting_an_entry(before, self.entries@, place as int, key);
            }
        }
    }
}

proof fn replacing_an_entry(before: Seq<Entry>, after: Seq<Entry>, place: int, key: Transition)
    requires
        keys_increase(keys_of(before)),
        0 <= place < before.len(),
        before[place].key() == key,
        after == before.update(place, after[place]),
        after[place].key() == key,
    ensures
        keys_increase(keys_of(after)),
        entry_map(after) == entry_map(before).insert(key, after[place].count),
{
    assert(keys_of(after) =~= keys_of(before));
    assert forall|i: int| 0 <= i < before.len() && #[trigger] before[i].key()
        != key implies exists|j: int| 0 <= j < after.len() && #[trigger] after[j]
        == before[i] by {
        assert(after[i] == before[i]);
    }
    assert forall|j: int| 0 <= j < after.len() && #[trigger] after[j].key() != key implies exists|
        i: int,
    |
        0 <= i < before.len() && #[trigger] before[i] == after[j] by {
        assert(before[j] == after[j]);
    }
    maps_agree(
        before,
        after,
        entry_map(before).insert(key, after[place].count),
        key,
        after[place].count,
    );
}

proof fn inserting_an_entry(before: Seq<Entry>, after: Seq<Entry>, place: int, key: Transition)
    requires
        keys_increase(keys_of(before)),
        0 <= place <= before.len(),
        forall|i: int| 0 <= i < place ==> transition_before(#[trigger] keys_of(before)[i], key),
        forall|i: int|
            place <= i < before.len() ==> !transition_before(#[trigger] keys_of(before)[i], key),
        !keys_of(before).contains(key),
        after.len() == before.len() + 1,
        after == before.insert(place, after[place]),
        after[place].key() == key,
    ensures
        keys_increase(keys_of(after)),
        entry_map(after) == entry_map(before).insert(key, after[place].count),
{
    let old_keys = keys_of(before);
    let keys = keys_of(after);
    assert(keys =~= old_keys.insert(place, key));
    assert forall|i: int, j: int| 0 <= i < j < keys.len() implies transition_before(
        #[trigger] keys[i],
        #[trigger] keys[j],
    ) by {
        if j == place {
            assert(keys[i] == old_keys[i]);
        } else if i == place {
            assert(keys[j] == old_keys[j - 1]);
            transition_order(old_keys[j - 1], key, key);
            assert(old_keys.contains(old_keys[j - 1]));
        } else {
            let left = if i < place {
                i
            } else {
                i - 1
            };
            let right = if j < place {
                j
            } else {
                j - 1
            };
            assert(keys[i] == old_keys[left] && keys[j] == old_keys[right]);
        }
    }
    assert forall|i: int| 0 <= i < before.len() && #[trigger] before[i].key()
        != key implies exists|j: int| 0 <= j < after.len() && #[trigger] after[j]
        == before[i] by {
        if i < place {
            assert(after[i] == before[i]);
        } else {
            assert(after[i + 1] == before[i]);
        }
    }
    assert forall|j: int| 0 <= j < after.len() && #[trigger] after[j].key() != key implies exists|
        i: int,
    |
        0 <= i < before.len() && #[trigger] before[i] == after[j] by {
        if j < place {
            assert(before[j] == after[j]);
        } else {
            assert(before[j - 1] == after[j]);
        }
    }
    maps_agree(
        before,
        after,
        entry_map(before).insert(key, after[place].count),
        key,
        after[place].count,
    );
}

/// Two lists of entries that differ in one transition only count the same of all others.
proof fn maps_agree(
    before: Seq<Entry>,
    after: Seq<Entry>,
    expected: Map<Transition, u32>,
    key: Transition,
    count: u32,
)
    requires
        keys_increase(keys_of(before)),
        keys_increase(keys_of(after)),
        expected == entry_map(before).insert(key, count),
        exists|i: int| 0 <= i < after.len() && #[trigger] after[i].key() == key && after[i].count
            == count,
        forall|i: int|
            0 <= i < before.len() && #[trigger] before[i].key() != key ==> exists|j: int|
                0 <= j < after.len() && #[trigger] after[j] == before[i],
        forall|j: int|
            0 <= j < after.len() && #[trigger] after[j].key() != key ==> exists|i: int|
                0 <= i < before.len() && #[trigger] before[i] == after[j],
    ensures
        entry_map(after) == expected,
{
    assert forall|other: Transition| #[trigger]
        entry_map(after).contains_key(other) == expected.contains_key(other) && (
        entry_map(after).contains_key(other) ==> entry_map(after)[other] == expected[other]) by {
        entry_map_domain(after, other);
        entry_map_domain(before, other);
        if other == key {
            let i = choose|i: int|
                0 <= i < after.len() && #[trigger] after[i].key() == key && after[i].count
                    == count;
            assert(keys_of(after)[i] == key);
            entry_map_lookup(after, i);
        } else {
            if keys_of(before).contains(other) {
                let i = choose|i: int|
                    0 <= i < keys_of(before).len() && keys_of(before)[i] == other;
                assert(before[i].key() != key);
                let j = choose|j: int| 0 <= j < after.len() && #[trigger] after[j] == before[i];
                assert(keys_of(after)[j] == other);
                entry_map_lookup(before, i);
                entry_map_lookup(after, j);
            }
            if keys_of(after).contains(other) {
                let j = choose|j: int| 0 <= j < keys_of(after).len() && keys_of(after)[j] == other;
                assert(after[j].key() != key);
                let i = choose|i: int| 0 <= i < before.len() && #[trigger] before[i] == after[j];
                assert(keys_of(before)[i] == other);
            }
        }
    }
    assert(entry_map(after) =~= expected);
}

// ---------------------------------------------------------------------------
// Transitions of a line
// ---------------------------------------------------------------------------

/// What stands before the token at `index`.
pub open spec fn token_before(tokens: Seq<TextPair>, index: int) -> TextPair {
    if index == 0 {
        (BOS@, ""@)
    } else {
        tokens[index - 1]
    }
}

/// The token at `index`, or what stands behind the last one.
pub open spec fn token_at(tokens: Seq<TextPair>, index: int) -> TextPair {
    if index == tokens.len() {
        (EOS@, ""@)
    } else {
        tokens[index]
    }
}

/// The transitions from the start of a line over its tokens to its end.
pub open spec fn line_transitions(tokens: Seq<TextPair>) -> Seq<Transition> {
    Seq::new(tokens.len() + 1, |i: int| (token_before(tokens, i), token_at(tokens, i)))
}

/// The transitions that a line adds to the corpus; none if it holds no token.
pub open spec fn word_transitions(tokens: Seq<TextPair>) -> Seq<Transition> {
    if tokens.len() == 0 {
        Seq::empty()
    } else {
        line_transitions(tokens)
    }
}

/// The transitions from each token to the one after the next.
pub open spec fn skip_transitions(tokens: Seq<TextPair>) -> Seq<Transition> {
    if tokens.len() < 3 {
        Seq::empty()
    } else {
        Seq::new((tokens.len() - 2) as nat, |i: int| (tokens[i], tokens[i + 2]))
    }
}

/// The transitions of a line follow its tokens: the first starts at the beginning of the line, each
/// one leads to the next token and starts where the one before it ended, and the last leads to the
/// end of the line. There is one more than there are tokens.
pub proof fn transitions_follow_the_tokens(tokens: Seq<TextPair>)
    ensures
        ({
            let found = line_transitions(tokens);
            &&& found.len() == tokens.len() + 1
            &&& found[0].0 == ("<BOS>"@, ""@)
            &&& forall|i: int| 0 <= i < tokens.len() ==> (#[trigger] found[i]).1 == tokens[i]
            &&& forall|i: int| 0 < i <= tokens.len() ==> (#[trigger] found[i]).0 == tokens[i - 1]
            &&& forall|i: int| 0 < i < found.len() ==> (#[trigger] found[i]).0 == found[i - 1].1
            &&& found.last().1 == ("<EOS>"@, ""@)
        }),
        tokens.len() > 0 ==> word_transitions(tokens) == line_transitions(tokens),
        tokens.len() == 0 ==> word_transitions(tokens).len() == 0,
{
}

/// The transitions that skip a token lead from each token over the next one to the one behind it.
pub proof fn skipping_transitions_leave_out_one_token(tokens: Seq<TextPair>)
    ensures
        skip_transitions(tokens).len() == (if tokens.len() < 3 {
            0
        } else {
            tokens.len() - 2
        }),
        forall|i: int|
            0 <= i < tokens.len() - 2 ==> #[trigger] skip_transitions(tokens)[i] == (
                tokens[i],
                tokens[i + 2],
            ),
{
}

/// How often a value stands in a list.
pub open spec fn occurrences<T>(values: Seq<T>, value: T) -> nat
    decreases values.len(),
{
    if values.len() == 0 {
        0
    } else if values.last() == value {
        occurrences(values.drop_last(), value) + 1
    } else {
        occurrences(values.drop_last(), value)
    }
}

/// Counting adds to each transition the number of its occurrences, up to the greatest number, and
/// leaves all others as they were.
pub proof fn each_occurrence_counts_once(
    counts: Map<Transition, u32>,
    keys: Seq<Transition>,
    key: Transition,
)
    ensures
        ({
            let total = count_in(counts, key) + occurrences(keys, key);
            count_in(all_incremented(counts, keys), key) == (if total > u32::MAX {
                u32::MAX as int
            } else {
                total as int
            })
        }),
        all_incremented(counts, keys).contains_key(key) <==> counts.contains_key(key)
            || keys.contains(key),
    decreases keys.len(),
{
    if keys.len() > 0 {
        each_occurrence_counts_once(counts, keys.drop_last(), key);
        assert(keys =~= keys.drop_last().push(keys.last()));
        if keys.contains(key) {
            let i = choose|i: int| 0 <= i < keys.len() && keys[i] == key;
            if i < keys.len() - 1 {
                assert(keys.drop_last()[i] == key);
            }
        }
        if keys.drop_last().contains(key) {
            let i = choose|i: int| 0 <= i < keys.drop_last().len() && keys.drop_last()[i] == key;
            assert(keys[i] == key);
        }
        if keys.last() == key {
            assert(keys[keys.len() - 1] == key);
        }
    }
}

proof fn what_stands_in_a_list_occurs<T>(values: Seq<T>, index: int)
    requires
        0 <= index < values.len(),
    ensures
        occurrences(values, values[index]) > 0,
    decreases values.len(),
{
    if index < values.len() - 1 {
        what_stands_in_a_list_occurs(values.drop_last(), index);
    }
}

/// After a line is counted, every token was seen behind the one before it, the first behind the
/// beginning of the line and the last before its end; and no other transition was seen that was not
/// seen before.
pub proof fn neighbours_are_counted(
    counts: Map<Transition, u32>,
    tokens: Seq<TextPair>,
    previous: TextPair,
    current: TextPair,
)
    requires
        tokens.len() > 0,
    ensures
        ({
            let after = all_incremented(counts, word_transitions(tokens));
            let neighbours = {
                ||| previous == ("<BOS>"@, ""@) && current == tokens[0]
                ||| exists|i: int|
                    0 < i < tokens.len() && tokens[i - 1] == previous && #[trigger] tokens[i]
                        == current
                ||| previous == tokens.last() && current == ("<EOS>"@, ""@)
            };
            &&& neighbours ==> count_in(after, (previous, current)) >= 1
            &&& !neighbours ==> count_in(after, (previous, current)) == count_in(
                counts,
                (previous, current),
            )
        }),
{
    let keys = word_transitions(tokens);
    let key = (previous, current);
    transitions_follow_the_tokens(tokens);
    each_occurrence_counts_once(counts, keys, key);
    if occurrences(keys, key) > 0 {
        what_occurs_stands_in_the_list(keys, key);
        let i = choose|i: int| 0 <= i < keys.len() && keys[i] == key;
        if 0 < i < tokens.len() {
            assert(tokens[i - 1] == previous && tokens[i] == current);
        }
    }
    if previous == ("<BOS>"@, ""@) && current == tokens[0] {
        assert(keys[0] == key);
        what_stands_in_a_list_occurs(keys, 0);
    }
    if previous == tokens.last() && current == ("<EOS>"@, ""@) {
        assert(keys[tokens.len() as int] == key);
        what_stands_in_a_list_occurs(keys, tokens.len() as int);
    }
    if exists|i: int|
        0 < i < tokens.len() && tokens[i - 1] == previous && #[trigger] tokens[i] == current {
        let i = choose|i: int|
            0 < i < tokens.len() && tokens[i - 1] == previous && #[trigger] tokens[i] == current;
        assert(keys[i] == key);
        what_stands_in_a_list_occurs(keys, i);
    }
}

proof fn what_occurs_stands_in_the_list<T>(values: Seq<T>, value: T)
    requires
        occurrences(values, value) > 0,
    ensures
        values.contains(value),
    decreases values.len(),
{
    if values.last() == value {
        assert(values[values.len() - 1] == value);
    } else {
        what_occurs_stands_in_the_list(values.drop_last(), value);
        let i = choose|i: int| 0 <= i < values.drop_last().len() && values.drop_last()[i] == value;
        assert(values[i] == value);
    }
}

/// Counts the transitions of a line.
pub fn count_word_transitions(tokens: &[(String, String)], counts: &mut TransitionCounts)
    requires
        old(counts).well_formed(),
    ensures
        final(counts).well_formed(),
        final(counts)@ == all_incremented(old(counts)@, word_transitions(pairs(tokens@))),
{
    let length: usize = tokens.len();
    if length == 0 {
        return;
    }
    let ghost start = counts@;
    let ghost keys = line_transitions(pairs(tokens@));
    assert(keys.take(0) =~= Seq::<Transition>::empty());
    for index in 0..length
        invariant
            length == tokens@.len(),
            counts.well_formed(),
            keys == line_transitions(pairs(tokens@)),
            counts@ == all_incremented(start, keys.take(index as int)),
    {
        assert(keys.take(index + 1).drop_last() =~= keys.take(index as int));
        let previous: (&str, &str) = if index == 0 {
            (BOS, "")
        } else {
            (tokens[index - 1].0.as_str(), tokens[index - 1].1.as_str())
        };
        counts.increment(previous, (tokens[index].0.as_str(), tokens[index].1.as_str()));
    }
    assert(keys.take(length + 1).drop_last() =~= keys.take(length as int));
    assert(keys.take(length + 1) =~= keys);
    counts.increment(
        (tokens[length - 1].0.as_str(), tokens[length - 1].1.as_str()),
        (EOS, ""),
    );
}

/// Counts the transitions of a line that skip one token.
pub fn count_skip_transitions(tokens: &[(String, String)], counts: &mut TransitionCounts)
    requires
        old(counts).well_formed(),
    ensures
        final(counts).well_formed(),
        final(counts)@ == all_incremented(old(counts)@, skip_transitions(pairs(tokens@))),
{
    let length: usize = tokens.len();
    if length < 3 {
        return;
    }
    let ghost start = counts@;
    let ghost keys = skip_transitions(pairs(tokens@));
    assert(keys.take(0) =~= Seq::<Transition>::empty());
    for index in 0..length - 2
        invariant
            length == tokens@.len(),
            length >= 3,
            counts.well_formed(),
            keys == skip_transitions(pairs(tokens@)),
            counts@ == all_incremented(start, keys.take(index as int)),
    {
        assert(keys.take(index + 1).drop_last() =~= keys.take(index as int));
        counts.increment(
            (tokens[index].0.as_str(), tokens[index].1.as_str()),
            (tokens[index + 2].0.as_str(), tokens[index + 2].1.as_str()),
        );
    }
    assert(keys.take(keys.len() as int) =~= keys);
}

/// The counts of both kinds after the first `count` lines, or the error of the first line that
/// cannot be read, behind its number.
pub open spec fn counted_lines(
    word: Map<Transition, u32>,
    skip: Map<Transition, u32>,
    source: Seq<Seq<char>>,
    count: int,
) -> Result<(Map<Transition, u32>, Map<Transition, u32>), Seq<char>>
    decreases count,
{
    if count <= 0 {
        Ok((word, skip))
    } else {
        match counted_lines(word, skip, source, count - 1) {
            Err(error) => Err(error),
            Ok(before) => match line_tokens(source[count - 1]) {
                Err(error) => Err(decimal(count as nat) + ": "@ + error),
                Ok(tokens) => Ok(
                    (
                        all_incremented(before.0, word_transitions(tokens)),
                        all_incremented(before.1, skip_transitions(tokens)),
                    ),
                ),
            },
        }
    }
}

proof fn line_error_stays(
    word: Map<Transition, u32>,
    skip: Map<Transition, u32>,
    source: Seq<Seq<char>>,
    low: int,
    high: int,
)
    requires
        counted_lines(word, skip, source, low) is Err,
        0 <= low <= high,
    ensures
        counted_lines(word, skip, source, high) == counted_lines(word, skip, source, low),
    decreases high - low,
{
    if low < high {
        line_error_stays(word, skip, source, low, high - 1);
    }
}

/// Counts the transitions of every line of a corpus file. If a line is in error, those of all
/// lines before it stay counted.
pub fn count_source(
    source: &str,
    word: &mut TransitionCounts,
    skip: &mut TransitionCounts,
) -> (result: Result<(), String>)
    requires
        old(word).well_formed(),
        old(skip).well_formed(),
    ensures
        final(word).well_formed(),
        final(skip).well_formed(),
        match counted_lines(
            old(word)@,
            old(skip)@,
            lines(source@),
            lines(source@).len() as int,
        ) {
            Ok(counts) => result is Ok && (final(word)@, final(skip)@) == counts,
            Err(error) => result is Err && result->Err_0@ == error && exists|row: int|
                0 <= row < lines(source@).len() && (#[trigger] counted_lines(
                    old(word)@,
                    old(skip)@,
                    lines(source@),
                    row,
                )) == Ok::<(Map<Transition, u32>, Map<Transition, u32>), Seq<char>>(
                    (final(word)@, final(skip)@),
                ) && counted_lines(old(word)@, old(skip)@, lines(source@), row + 1) is Err,
        },
{
    let rows: Vec<String> = lines_of(source);
    let ghost all = lines(source@);
    let ghost (first_word, first_skip) = (word@, skip@);
    for index in 0..rows.len()
        invariant
            all == texts(rows@),
            all == lines(source@),
            word.well_formed(),
            skip.well_formed(),
            counted_lines(first_word, first_skip, all, index as int) == Ok::<
                (Map<Transition, u32>, Map<Transition, u32>),
                Seq<char>,
            >((word@, skip@)),
            first_word == old(word)@,
            first_skip == old(skip)@,
    {
        assert(all[index as int] == rows@[index as int]@);
        match parse_annotated_corpus_line(rows[index].as_str()) {
            Ok(tokens) => {
                count_word_transitions(tokens.as_slice(), word);
                count_skip_transitions(tokens.as_slice(), skip);
            },
            Err(error) => {
                let number: String = count_text(index + 1);
                let place: String = joined(number.as_str(), ": ");
                proof {
                    line_error_stays(first_word, first_skip, all, index + 1, all.len() as int);
                }
                return Err(joined(place.as_str(), error.as_str()));
            },
        }
    }
    Ok(())
}

// ---------------------------------------------------------------------------
// Bonuses
// ---------------------------------------------------------------------------

/// The number of binary digits of a number; none for zero.
pub open spec fn binary_digits(value: nat) -> nat
    decreases value,
{
    if value == 0 {
        0
    } else {
        binary_digits(value / 2) + 1
    }
}

proof fn binary_digits_are_few(value: nat, exponent: nat)
    requires
        value < vstd::arithmetic::power2::pow2(exponent),
    ensures
        binary_digits(value) <= exponent,
    decreases exponent,
{
    if exponent == 0 {
        vstd::arithmetic::power2::lemma2_to64();
    } else if value > 0 {
        vstd::arithmetic::power2::lemma_pow2_unfold(exponent);
        binary_digits_are_few(value / 2, (exponent - 1) as nat);
    }
}

fn digits_of(value: u32) -> (result: i64)
    ensures
        result == binary_digits(value as nat),
        0 <= result <= 32,
{
    proof {
        vstd::arithmetic::power2::lemma2_to64();
        binary_digits_are_few(value as nat, 32);
    }
    let mut rest: u32 = value;
    let mut result: i64 = 0;
    while rest > 0
        invariant
            result + binary_digits(rest as nat) == binary_digits(value as nat),
            0 <= result,
            binary_digits(value as nat) <= 32,
        decreases rest,
    {
        rest = rest / 2;
        result += 1;
    }
    result
}

/// What a transition with this count is worth: the weight for each binary digit of the count.
pub open spec fn bonus_of(weight: int, count: u32) -> int {
    if weight <= 0 || count == 0 {
        0
    } else if weight * binary_digits(count as nat) > i32::MAX {
        i32::MAX as int
    } else {
        weight * binary_digits(count as nat)
    }
}

proof fn binary_digits_grow(low: nat, high: nat)
    requires
        low <= high,
    ensures
        binary_digits(low) <= binary_digits(high),
    decreases high,
{
    if low > 0 {
        binary_digits_grow(low / 2, high / 2);
    }
}

/// A transition that was seen more often is worth no less, and none is worth less than nothing.
pub proof fn frequent_transitions_are_worth_no_less(weight: int, low: u32, high: u32)
    requires
        low <= high,
    ensures
        0 <= bonus_of(weight, low) <= bonus_of(weight, high),
{
    binary_digits_grow(low as nat, high as nat);
    if weight > 0 {
        assert(0 <= weight * binary_digits(low as nat) <= weight * binary_digits(high as nat))
            by (nonlinear_arith)
            requires
                weight > 0,
                binary_digits(low as nat) <= binary_digits(high as nat),
        ;
    }
}

/// The cost after the bonuses of some transitions.
pub open spec fn after_bonuses(
    cost: int,
    counts: Map<Transition, u32>,
    weight: int,
    keys: Seq<Transition>,
) -> int
    decreases keys.len(),
{
    if keys.len() == 0 {
        cost
    } else {
        cost_difference(
            after_bonuses(cost, counts, weight, keys.drop_last()),
            bonus_of(weight, count_in(counts, keys.last())),
        )
    }
}

/// Bonuses never raise the cost.
pub proof fn bonuses_never_raise_the_cost(
    cost: int,
    counts: Map<Transition, u32>,
    weight: int,
    keys: Seq<Transition>,
)
    requires
        i32::MIN <= cost <= i32::MAX,
    ensures
        i32::MIN <= after_bonuses(cost, counts, weight, keys) <= cost,
    decreases keys.len(),
{
    if keys.len() > 0 {
        bonuses_never_raise_the_cost(cost, counts, weight, keys.drop_last());
        frequent_transitions_are_worth_no_less(weight, 0, count_in(counts, keys.last()));
    }
}

/// The number of transitions that the corpus holds.
pub open spec fn matched(counts: Map<Transition, u32>, keys: Seq<Transition>) -> nat
    decreases keys.len(),
{
    if keys.len() == 0 {
        0
    } else {
        matched(counts, keys.drop_last()) + (if count_in(counts, keys.last()) > 0 {
            1nat
        } else {
            0
        })
    }
}

/// A sum that stays at the greatest number of 64 bits.
pub open spec fn sum_within(value: u64, added: nat) -> u64 {
    if value + added > u64::MAX {
        u64::MAX
    } else {
        (value + added) as u64
    }
}

/// What was scored with a table.
#[derive(Clone, Copy, Debug, PartialEq, Eq, Structural)]
pub struct TransitionDiagnostics {
    pub entries: usize,
    pub weight: i32,
    pub transitions_scored: u64,
    pub matched_transitions: u64,
}

/// Counted transitions with the weight of a bonus, and what was scored with them.
#[derive(Debug)]
pub struct TransitionTable {
    pub counts: TransitionCounts,
    pub weight: i32,
    pub transitions_scored: u64,
    pub matched_transitions: u64,
}

impl TransitionTable {
    pub open spec fn well_formed(&self) -> bool {
        self.counts.well_formed()
    }

    pub fn new(counts: TransitionCounts, weight: i32) -> (result: Self)
        requires
            counts.well_formed(),
        ensures
            result.well_formed(),
            result.counts@ == counts@,
            result.counts.entry_count() == counts.entry_count(),
            result.weight == weight,
            result.transitions_scored == 0,
            result.matched_transitions == 0,
    {
        TransitionTable { counts, weight, transitions_scored: 0, matched_transitions: 0 }
    }

    /// Whether the table gives any bonus.
    pub fn is_enabled(&self) -> (result: bool)
        ensures
            result == (self.weight > 0),
    {
        self.weight > 0
    }

    /// What was scored, if the table gives any bonus.
    pub fn diagnostics(&self) -> (result: Option<TransitionDiagnostics>)
        ensures
            result is Some <==> self.weight > 0,
            result matches Some(found) ==> {
                &&& found.entries == self.counts.entry_count()
                &&& found.weight == self.weight
                &&& found.transitions_scored == self.transitions_scored
                &&& found.matched_transitions == self.matched_transitions
            },
    {
        if self.is_enabled() {
            Some(
                TransitionDiagnostics {
                    entries: self.counts.len(),
                    weight: self.weight,
                    transitions_scored: self.transitions_scored,
                    matched_transitions: self.matched_transitions,
                },
            )
        } else {
            None
        }
    }

    /// The bonus of a transition.
    pub fn bonus(&mut self, previous: (&str, &str), current: (&str, &str)) -> (result: i32)
        requires
            old(self).well_formed(),
        ensures
            ({
                let key = ((previous.0@, previous.1@), (current.0@, current.1@));
                let count = count_in(old(self).counts@, key);
                &&& result == bonus_of(old(self).weight as int, count)
                &&& final(self).transitions_scored == (if old(self).weight > 0 {
                    sum_within(old(self).transitions_scored, 1)
                } else {
                    old(self).transitions_scored
                })
                &&& final(self).matched_transitions == (if old(self).weight > 0 && count > 0 {
                    sum_within(old(self).matched_transitions, 1)
                } else {
                    old(self).matched_transitions
                })
            }),
            final(self).counts == old(self).counts,
            final(self).weight == old(self).weight,
    {
        if !self.is_enabled() {
            return 0;
        }
        self.transitions_scored = self.transitions_scored.saturating_add(1);
        let count: u32 = self.counts.count(previous, current);
        if count == 0 {
            return 0;
        }
        self.matched_transitions = self.matched_transitions.saturating_add(1);
        let digits: i64 = digits_of(count);
        let weight: i64 = self.weight as i64;
        assert(0 <= weight * digits <= 0x7FFF_FFFF * 32) by (nonlinear_arith)
            requires
                0 <= weight <= 0x7FFF_FFFF,
                0 <= digits <= 32,
        ;
        let product: i64 = weight * digits;
        if product > i32::MAX as i64 {
            i32::MAX
        } else {
            product as i32
        }
    }
}

// ---------------------------------------------------------------------------
// The ranker
// ---------------------------------------------------------------------------

/// A part of a conversion.
#[derive(Debug, PartialEq, Eq)]
pub struct Segment {
    pub reading: String,
    pub surface: String,
    pub cost: i32,
}

/// A conversion with its parts.
#[derive(Debug, PartialEq, Eq)]
pub struct Conversion {
    pub surface: String,
    pub segments: Vec<Segment>,
    pub cost: i32,
}

/// The surfaces and readings of the parts.
pub open spec fn segment_pairs(segments: Seq<Segment>) -> Seq<TextPair> {
    Seq::new(segments.len(), |i: int| (segments[i].surface@, segments[i].reading@))
}

/// What was scored with both tables.
#[derive(Clone, Copy, Debug, PartialEq, Eq, Structural)]
pub struct Diagnostics {
    pub candidates_scored: u64,
    pub word: Option<TransitionDiagnostics>,
    pub skip: Option<TransitionDiagnostics>,
}

/// Ranks conversions by the transitions of a corpus.
#[derive(Debug)]
pub struct CorpusBigramRanker {
    pub word: TransitionTable,
    pub skip: TransitionTable,
    pub candidates_scored: u64,
}

/// The cost of a conversion with the bonuses of its transitions.
pub open spec fn ranking_cost_of(
    word: Map<Transition, u32>,
    word_weight: int,
    skip: Map<Transition, u32>,
    skip_weight: int,
    parts: Seq<TextPair>,
    cost: int,
) -> int {
    after_bonuses(
        after_bonuses(cost, word, word_weight, line_transitions(parts)),
        skip,
        skip_weight,
        skip_transitions(parts),
    )
}

impl CorpusBigramRanker {
    pub open spec fn well_formed(&self) -> bool {
        self.word.well_formed() && self.skip.well_formed()
    }

    pub fn new(word: TransitionCounts, word_weight: i32, skip: TransitionCounts, skip_weight: i32) -> (
        result: Self)
        requires
            word.well_formed(),
            skip.well_formed(),
        ensures
            result.well_formed(),
            result.word.counts@ == word@,
            result.word.weight == word_weight,
            result.skip.counts@ == skip@,
            result.skip.weight == skip_weight,
            result.candidates_scored == 0,
            result.word.transitions_scored == 0 && result.word.matched_transitions == 0,
            result.skip.transitions_scored == 0 && result.skip.matched_transitions == 0,
    {
        CorpusBigramRanker {
            word: TransitionTable::new(word, word_weight),
            skip: TransitionTable::new(skip, skip_weight),
            candidates_scored: 0,
        }
    }

    /// What was scored so far.
    pub fn diagnostics(&self) -> (result: Diagnostics)
        ensures
            result.candidates_scored == self.candidates_scored,
            result.word is Some <==> self.word.weight > 0,
            result.word matches Some(found) ==> found == (TransitionDiagnostics {
                entries: self.word.counts.entry_count() as usize,
                weight: self.word.weight,
                transitions_scored: self.word.transitions_scored,
                matched_transitions: self.word.matched_transitions,
            }),
            result.skip is Some <==> self.skip.weight > 0,
            result.skip matches Some(found) ==> found == (TransitionDiagnostics {
                entries: self.skip.counts.entry_count() as usize,
                weight: self.skip.weight,
                transitions_scored: self.skip.transitions_scored,
                matched_transitions: self.skip.matched_transitions,
            }),
    {
        Diagnostics {
            candidates_scored: self.candidates_scored,
            word: self.word.diagnostics(),
            skip: self.skip.diagnostics(),
        }
    }

    /// The cost by which a conversion is ranked: its own, less the bonus of every transition
    /// that the corpus holds.
    pub fn ranking_cost(&mut self, conversion: &Conversion) -> (result: i32)
        requires
            old(self).well_formed(),
        ensures
            final(self).well_formed(),
            final(self).word.counts == old(self).word.counts,
            final(self).skip.counts == old(self).skip.counts,
            final(self).word.weight == old(self).word.weight,
            final(self).skip.weight == old(self).skip.weight,
            final(self).candidates_scored == sum_within(old(self).candidates_scored, 1),
            ({
                let parts = segment_pairs(conversion.segments@);
                &&& result == ranking_cost_of(
                    old(self).word.counts@,
                    old(self).word.weight as int,
                    old(self).skip.counts@,
                    old(self).skip.weight as int,
                    parts,
                    conversion.cost as int,
                )
                &&& old(self).word.weight > 0 ==> final(self).word.transitions_scored
                    == sum_within(old(self).word.transitions_scored, parts.len() + 1)
                &&& old(self).word.weight > 0 ==> final(self).word.matched_transitions
                    == sum_within(
                    old(self).word.matched_transitions,
                    matched(old(self).word.counts@, line_transitions(parts)),
                )
                &&& old(self).skip.weight > 0 ==> final(self).skip.transitions_scored
                    == sum_within(
                    old(self).skip.transitions_scored,
                    skip_transitions(parts).len(),
                )
                &&& old(self).skip.weight > 0 ==> final(self).skip.matched_transitions
                    == sum_within(
                    old(self).skip.matched_transitions,
                    matched(old(self).skip.counts@, skip_transitions(parts)),
                )
            }),
    {
        self.candidates_scored = self.candidates_scored.saturating_add(1);
        let cost: i32 = self.after_word_bonuses(conversion);
        self.after_skip_bonuses(conversion, cost)
    }

    fn after_word_bonuses(&mut self, conversion: &Conversion) -> (result: i32)
        requires
            old(self).well_formed(),
        ensures
            final(self).well_formed(),
            final(self).skip == old(self).skip,
            final(self).candidates_scored == old(self).candidates_scored,
            final(self).word.counts == old(self).word.counts,
            final(self).word.weight == old(self).word.weight,
            ({
                let keys = line_transitions(segment_pairs(conversion.segments@));
                &&& result == after_bonuses(
                    conversion.cost as int,
                    old(self).word.counts@,
                    old(self).word.weight as int,
                    keys,
                )
                &&& old(self).word.weight > 0 ==> final(self).word.transitions_scored
                    == sum_within(old(self).word.transitions_scored, keys.len())
                &&& old(self).word.weight > 0 ==> final(self).word.matched_transitions
                    == sum_within(
                    old(self).word.matched_transitions,
                    matched(old(self).word.counts@, keys),
                )
            }),
    {
        let segments: &Vec<Segment> = &conversion.segments;
        let length: usize = segments.len();
        let ghost parts = segment_pairs(segments@);
        let ghost keys = line_transitions(parts);
        let ghost counts = self.word.counts@;
        let ghost weight = self.word.weight as int;
        let mut result: i32 = conversion.cost;
        assert(keys.take(0) =~= Seq::<Transition>::empty());
        for index in 0..length
            invariant
                segments == conversion.segments,
                length == segments@.len(),
                parts == segment_pairs(segments@),
                keys == line_transitions(parts),
                self.well_formed(),
                self.skip == old(self).skip,
                self.candidates_scored == old(self).candidates_scored,
                self.word.counts == old(self).word.counts,
                self.word.weight == old(self).word.weight,
                counts == self.word.counts@,
                weight == self.word.weight,
                result == after_bonuses(
                    conversion.cost as int,
                    counts,
                    weight,
                    keys.take(index as int),
                ),
                weight > 0 ==> self.word.transitions_scored == sum_within(
                    old(self).word.transitions_scored,
                    index as nat,
                ),
                weight > 0 ==> self.word.matched_transitions == sum_within(
                    old(self).word.matched_transitions,
                    matched(counts, keys.take(index as int)),
                ),
        {
            assert(keys.take(index + 1).drop_last() =~= keys.take(index as int));
            let previous: (&str, &str) = if index == 0 {
                (BOS, "")
            } else {
                (segments[index - 1].surface.as_str(), segments[index - 1].reading.as_str())
            };
            let bonus: i32 = self.word.bonus(
                previous,
                (segments[index].surface.as_str(), segments[index].reading.as_str()),
            );
            result = difference_of_costs(result, bonus);
        }
        assert(keys.take(length + 1).drop_last() =~= keys.take(length as int));
        assert(keys.take(length + 1) =~= keys);
        let previous: (&str, &str) = if length == 0 {
            (BOS, "")
        } else {
            (segments[length - 1].surface.as_str(), segments[length - 1].reading.as_str())
        };
        let bonus: i32 = self.word.bonus(previous, (EOS, ""));
        difference_of_costs(result, bonus)
    }

    fn after_skip_bonuses(&mut self, conversion: &Conversion, cost: i32) -> (result: i32)
        requires
            old(self).well_formed(),
        ensures
            final(self).well_formed(),
            final(self).word == old(self).word,
            final(self).candidates_scored == old(self).candidates_scored,
            final(self).skip.counts == old(self).skip.counts,
            final(self).skip.weight == old(self).skip.weight,
            ({
                let keys = skip_transitions(segment_pairs(conversion.segments@));
                &&& result == after_bonuses(
                    cost as int,
                    old(self).skip.counts@,
                    old(self).skip.weight as int,
                    keys,
                )
                &&& old(self).skip.weight > 0 ==> final(self).skip.transitions_scored
                    == sum_within(old(self).skip.transitions_scored, keys.len())
                &&& old(self).skip.weight > 0 ==> final(self).skip.matched_transitions
                    == sum_within(
                    old(self).skip.matched_transitions,
                    matched(old(self).skip.counts@, keys),
                )
            }),
    {
        let segments: &Vec<Segment> = &conversion.segments;
        let length: usize = segments.len();
        let ghost parts = segment_pairs(segments@);
        let ghost keys = skip_transitions(parts);
        let ghost counts = self.skip.counts@;
        let ghost weight = self.skip.weight as int;
        let mut result: i32 = cost;
        if length < 3 {
            return result;
        }
        assert(keys.take(0) =~= Seq::<Transition>::empty());
        for index in 0..length - 2
            invariant
                segments == conversion.segments,
                length == segments@.len(),
                length >= 3,
                parts == segment_pairs(segments@),
                keys == skip_transitions(parts),
                self.well_formed(),
                self.word == old(self).word,
                self.candidates_scored == old(self).candidates_scored,
                self.skip.counts == old(self).skip.counts,
                self.skip.weight == old(self).skip.weight,
                counts == self.skip.counts@,
                weight == self.skip.weight,
                result == after_bonuses(cost as int, counts, weight, keys.take(index as int)),
                weight > 0 ==> self.skip.transitions_scored == sum_within(
                    old(self).skip.transitions_scored,
                    index as nat,
                ),
                weight > 0 ==> self.skip.matched_transitions == sum_within(
                    old(self).skip.matched_transitions,
                    matched(counts, keys.take(index as int)),
                ),
        {
            assert(keys.take(index + 1).drop_last() =~= keys.take(index as int));
            let bonus: i32 = self.skip.bonus(
                (segments[index].surface.as_str(), segments[index].reading.as_str()),
                (segments[index + 2].surface.as_str(), segments[index + 2].reading.as_str()),
            );
            result = difference_of_costs(result, bonus);
        }
        assert(keys.take(keys.len() as int) =~= keys);
        result
    }
}

/// The corpus never makes a conversion look worse than it is.
pub proof fn ranking_never_raises_the_cost(
    word: Map<Transition, u32>,
    word_weight: int,
    skip: Map<Transition, u32>,
    skip_weight: int,
    parts: Seq<TextPair>,
    cost: int,
)
    requires
        i32::MIN <= cost <= i32::MAX,
    ensures
        i32::MIN <= ranking_cost_of(word, word_weight, skip, skip_weight, parts, cost) <= cost,
{
    bonuses_never_raise_the_cost(cost, word, word_weight, line_transitions(parts));
    let between = after_bonuses(cost, word, word_weight, line_transitions(parts));
    bonuses_never_raise_the_cost(between, skip, skip_weight, skip_transitions(parts));
}

/// The sum of the bonuses of some transitions.
pub open spec fn bonus_sum(counts: Map<Transition, u32>, weight: int, keys: Seq<Transition>) -> int
    decreases keys.len(),
{
    if keys.len() == 0 {
        0
    } else {
        bonus_sum(counts, weight, keys.drop_last()) + bonus_of(weight, count_in(counts, keys.last()))
    }
}

proof fn bonuses_lower_the_cost_by_their_sum(
    cost: int,
    counts: Map<Transition, u32>,
    weight: int,
    keys: Seq<Transition>,
)
    requires
        i32::MIN <= cost <= i32::MAX,
        cost - bonus_sum(counts, weight, keys) >= i32::MIN,
    ensures
        after_bonuses(cost, counts, weight, keys) == cost - bonus_sum(counts, weight, keys),
        bonus_sum(counts, weight, keys) >= 0,
    decreases keys.len(),
{
    if keys.len() > 0 {
        let bonus = bonus_of(weight, count_in(counts, keys.last()));
        frequent_transitions_are_worth_no_less(weight, 0, count_in(counts, keys.last()));
        bonus_sums_are_positive(counts, weight, keys.drop_last());
        bonuses_lower_the_cost_by_their_sum(cost, counts, weight, keys.drop_last());
    }
}

proof fn bonus_sums_are_positive(counts: Map<Transition, u32>, weight: int, keys: Seq<Transition>)
    ensures
        bonus_sum(counts, weight, keys) >= 0,
        forall|i: int|
            0 <= i < keys.len() ==> bonus_sum(counts, weight, keys) >= bonus_of(
                weight,
                count_in(counts, #[trigger] keys[i]),
            ),
        (forall|i: int| 0 <= i < keys.len() ==> count_in(counts, #[trigger] keys[i]) == 0)
            ==> bonus_sum(counts, weight, keys) == 0,
    decreases keys.len(),
{
    if keys.len() > 0 {
        let rest = keys.drop_last();
        bonus_sums_are_positive(counts, weight, rest);
        frequent_transitions_are_worth_no_less(weight, 0, count_in(counts, keys.last()));
        assert forall|i: int| 0 <= i < keys.len() implies bonus_sum(counts, weight, keys)
            >= bonus_of(weight, count_in(counts, #[trigger] keys[i])) by {
            if i < keys.len() - 1 {
                assert(rest[i] == keys[i]);
                frequent_transitions_are_worth_no_less(weight, 0, count_in(counts, rest[i]));
            }
        }
        if forall|i: int| 0 <= i < keys.len() ==> count_in(counts, #[trigger] keys[i]) == 0 {
            assert forall|i: int| 0 <= i < rest.len() implies count_in(counts, #[trigger] rest[i])
                == 0 by {
                assert(rest[i] == keys[i]);
            }
            assert(count_in(counts, keys[keys.len() - 1]) == 0);
        }
    }
}

/// As long as the cost stays in its range, ranking takes from it exactly the bonuses of the parts
/// behind each other and of those that skip a part.
pub proof fn ranking_takes_every_bonus_from_the_cost(
    word: Map<Transition, u32>,
    word_weight: int,
    skip: Map<Transition, u32>,
    skip_weight: int,
    parts: Seq<TextPair>,
    cost: int,
)
    requires
        i32::MIN <= cost <= i32::MAX,
        cost - bonus_sum(word, word_weight, line_transitions(parts)) - bonus_sum(
            skip,
            skip_weight,
            skip_transitions(parts),
        ) >= i32::MIN,
    ensures
        ranking_cost_of(word, word_weight, skip, skip_weight, parts, cost) == cost - bonus_sum(
            word,
            word_weight,
            line_transitions(parts),
        ) - bonus_sum(skip, skip_weight, skip_transitions(parts)),
{
    bonus_sums_are_positive(word, word_weight, line_transitions(parts));
    bonus_sums_are_positive(skip, skip_weight, skip_transitions(parts));
    bonuses_lower_the_cost_by_their_sum(cost, word, word_weight, line_transitions(parts));
    let between = after_bonuses(cost, word, word_weight, line_transitions(parts));
    bonuses_lower_the_cost_by_their_sum(between, skip, skip_weight, skip_transitions(parts));
}

/// A conversion with two parts that the corpus holds one behind the other is ranked before its own
/// cost by at least the bonus of that transition.
pub proof fn a_known_neighbour_lowers_the_cost(
    word: Map<Transition, u32>,
    word_weight: int,
    skip: Map<Transition, u32>,
    skip_weight: int,
    parts: Seq<TextPair>,
    cost: int,
    index: int,
)
    requires
        0 < index < parts.len(),
        i32::MIN <= cost <= i32::MAX,
        cost - bonus_of(word_weight, count_in(word, (parts[index - 1], parts[index]))) >= i32::MIN,
    ensures
        ranking_cost_of(word, word_weight, skip, skip_weight, parts, cost) <= cost - bonus_of(
            word_weight,
            count_in(word, (parts[index - 1], parts[index])),
        ),
{
    let keys = line_transitions(parts);
    transitions_follow_the_tokens(parts);
    assert(keys[index] == (parts[index - 1], parts[index]));
    one_bonus_is_taken(cost, word, word_weight, keys, index);
    let between = after_bonuses(cost, word, word_weight, keys);
    bonuses_never_raise_the_cost(cost, word, word_weight, keys);
    bonuses_never_raise_the_cost(between, skip, skip_weight, skip_transitions(parts));
}

proof fn one_bonus_is_taken(
    cost: int,
    counts: Map<Transition, u32>,
    weight: int,
    keys: Seq<Transition>,
    index: int,
)
    requires
        0 <= index < keys.len(),
        i32::MIN <= cost <= i32::MAX,
        cost - bonus_of(weight, count_in(counts, keys[index])) >= i32::MIN,
    ensures
        after_bonuses(cost, counts, weight, keys) <= cost - bonus_of(
            weight,
            count_in(counts, keys[index]),
        ),
    decreases keys.len(),
{
    let rest = keys.drop_last();
    bonuses_never_raise_the_cost(cost, counts, weight, rest);
    frequent_transitions_are_worth_no_less(weight, 0, count_in(counts, keys.last()));
    if index < keys.len() - 1 {
        assert(rest[index] == keys[index]);
        one_bonus_is_taken(cost, counts, weight, rest, index);
    }
}

/// The parts at two places.
pub open spec fn both_at(parts: Seq<TextPair>, left: int, right: int) -> Transition {
    (parts[left], parts[right])
}

/// Where the corpus holds no two neighbouring parts, nor two with one between them, the cost stays
/// as it is.
pub proof fn an_unknown_conversion_keeps_its_cost(
    word: Map<Transition, u32>,
    word_weight: int,
    skip: Map<Transition, u32>,
    skip_weight: int,
    parts: Seq<TextPair>,
    cost: int,
)
    requires
        i32::MIN <= cost <= i32::MAX,
        parts.len() > 0,
        count_in(word, (("<BOS>"@, ""@), parts[0])) == 0,
        count_in(word, (parts.last(), ("<EOS>"@, ""@))) == 0,
        forall|i: int|
            0 < i < parts.len() ==> count_in(word, #[trigger] both_at(parts, i - 1, i)) == 0,
        forall|i: int|
            0 <= i < parts.len() - 2 ==> count_in(skip, #[trigger] both_at(parts, i, i + 2)) == 0,
    ensures
        ranking_cost_of(word, word_weight, skip, skip_weight, parts, cost) == cost,
{
    let keys = line_transitions(parts);
    transitions_follow_the_tokens(parts);
    assert forall|i: int| 0 <= i < keys.len() implies count_in(word, #[trigger] keys[i]) == 0 by {
        if 0 < i < parts.len() {
            assert(keys[i] == both_at(parts, i - 1, i));
        }
    }
    let skipped = skip_transitions(parts);
    skipping_transitions_leave_out_one_token(parts);
    assert forall|i: int| 0 <= i < skipped.len() implies count_in(skip, #[trigger] skipped[i])
        == 0 by {
        assert(skipped[i] == both_at(parts, i, i + 2));
    }
    bonus_sums_are_positive(word, word_weight, keys);
    bonus_sums_are_positive(skip, skip_weight, skipped);
    ranking_takes_every_bonus_from_the_cost(word, word_weight, skip, skip_weight, parts, cost);
}

/// A transition that was seen once is worth the weight, and each time that the count doubles it is
/// worth the weight once more, up to the greatest number; an unseen one is worth nothing.
pub proof fn a_doubled_count_is_worth_one_weight_more(weight: int, count: u32)
    requires
        weight > 0,
        0 < count,
        count * 2 <= u32::MAX,
    ensures
        bonus_of(weight, 0) == 0,
        weight <= i32::MAX ==> bonus_of(weight, 1) == weight,
        bonus_of(weight, count) + weight <= i32::MAX ==> bonus_of(weight, (count * 2) as u32)
            == bonus_of(weight, count) + weight && bonus_of(weight, (count * 2 + 1) as u32)
            == bonus_of(weight, count) + weight,
{
    let digits = binary_digits(count as nat);
    assert(((count * 2) as nat) / 2 == count);
    assert(((count * 2 + 1) as nat) / 2 == count);
    assert(binary_digits((count * 2) as nat) == digits + 1);
    assert(binary_digits((count * 2 + 1) as nat) == digits + 1);
    assert(binary_digits(0) == 0);
    assert(binary_digits(1) == 1);
    assert(weight * (digits + 1) == weight * digits + weight) by (nonlinear_arith);
    assert(weight * 1 == weight);
    if bonus_of(weight, count) + weight <= i32::MAX {
        assert(weight * digits <= i32::MAX);
    }
}

} // verus!
