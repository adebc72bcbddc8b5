//! A relation between texts, kept in order so that the partners of a text are found quickly.

use crate::corpus::{pairs, TextPair};
use crate::order::{
    place_text, sorted, text_before, text_order_is_asymmetric, text_order_is_irreflexive,
    text_order_is_total, text_order_is_transitive, is_ranked, Placement, Ranked,
};
use crate::text::texts;
use vstd::prelude::*;
use vstd::string::*;

verus! {

/// Two texts that belong together.
#[derive(Debug)]
pub struct Related {
    pub first: String,
    pub second: String,
}

impl View for Related {
    type V = TextPair;

    open spec fn view(&self) -> TextPair {
        (self.first@, self.second@)
    }
}

/// The order of pairs: by the first text, then by the second.
pub open spec fn pair_before(left: TextPair, right: TextPair) -> bool {
    text_before(left.0, right.0) || (left.0 == right.0 && text_before(left.1, right.1))
}

proof fn pair_order(first: TextPair, second: TextPair, third: TextPair)
    ensures
        !pair_before(first, first),
        pair_before(first, second) ==> !pair_before(second, first),
        pair_before(first, second) && pair_before(second, third) ==> pair_before(first, third),
        first == second || pair_before(first, second) || pair_before(second, first),
{
    text_order_is_irreflexive(first.0);
    text_order_is_irreflexive(first.1);
    if text_before(first.0, second.0) {
        text_order_is_asymmetric(first.0, second.0);
        if text_before(second.0, third.0) {
            text_order_is_transitive(first.0, second.0, third.0);
        }
    }
    if text_before(second.0, first.0) {
        text_order_is_asymmetric(second.0, first.0);
    }
    if text_before(first.1, second.1) {
        text_order_is_asymmetric(first.1, second.1);
        if text_before(second.1, third.1) {
            text_order_is_transitive(first.1, second.1, third.1);
        }
    }
    text_order_is_total(first.0, second.0);
    text_order_is_total(first.1, second.1);
}

impl Ranked for Related {
    open spec fn ranks_before(&self, other: &Self) -> bool {
        pair_before(self@, other@)
    }

    proof fn ranking_laws(first: &Self, second: &Self, third: &Self) {
        pair_order(first@, second@, third@);
        pair_order(second@, third@, first@);
        pair_order(third@, second@, first@);
        pair_order(first@, third@, second@);
        pair_order(second@, first@, third@);
    }

    fn comes_before(&self, other: &Self) -> (result: bool) {
        proof {
            text_order_is_irreflexive(self.first@);
            if text_before(other.first@, self.first@) {
                text_order_is_asymmetric(other.first@, self.first@);
            }
        }
        match place_text(self.first.as_str(), other.first.as_str()) {
            Placement::Before => true,
            Placement::After => false,
            Placement::Same => place_text(self.second.as_str(), other.second.as_str())
                == Placement::Before,
        }
    }
}

/// A set of pairs of texts.
#[derive(Debug)]
pub struct PairTable {
    entries: Vec<Related>,
}

/// The pairs of some entries.
pub open spec fn related(entries: Seq<Related>) -> Seq<TextPair> {
    Seq::new(entries.len(), |i: int| entries[i]@)
}

impl View for PairTable {
    type V = Set<TextPair>;

    closed spec fn view(&self) -> Set<TextPair> {
        related(self.entries@).to_set()
    }
}

impl PairTable {
    /// The pairs stand in increasing order, so none stands twice.
    pub closed spec fn well_formed(&self) -> bool {
        forall|i: int, j: int|
            0 <= i < j < self.entries@.len() ==> pair_before(
                (#[trigger] self.entries@[i])@,
                (#[trigger] self.entries@[j])@,
            )
    }

    fn without_repetition(ranked: Vec<Related>) -> (result: Self)
        requires
            is_ranked(ranked@),
        ensures
            result.well_formed(),
            result@ == related(ranked@).to_set(),
    {
        let ghost all = related(ranked@);
        let mut table: PairTable = PairTable { entries: Vec::new() };
        let count: usize = ranked.len();
        let mut source: Vec<Related> = ranked;
        let ghost given = source@;
        proof {
            assert(related(table.entries@) =~= all.take(0));
        }
        // The entries are taken from the end, so they are reversed first.
        let mut reversed: Vec<Related> = Vec::new();
        while source.len() > 0
            invariant
                source@ == given.take(source@.len() as int),
                source@.len() + reversed@.len() == given.len(),
                forall|i: int|
                    0 <= i < reversed@.len() ==> #[trigger] reversed@[i] == given[given.len() - 1
                        - i],
            decreases source@.len(),
        {
            let ghost before = source@;
            match source.pop() {
                Some(entry) => {
                    assert(entry == given[before.len() - 1]);
                    assert(source@ =~= given.take(source@.len() as int));
                    reversed.push(entry);
                },
                None => {},
            }
        }
        for index in 0..count
            invariant
                count == given.len(),
                is_ranked(given),
                all == related(given),
                reversed@.len() == count - index,
                forall|i: int|
                    0 <= i < reversed@.len() ==> #[trigger] reversed@[i] == given[given.len() - 1
                        - i],
                table.well_formed(),
                table@ == all.take(index as int).to_set(),
                index == 0 ==> table.entries@.len() == 0,
                index > 0 ==> table.entries@.len() > 0 && table.entries@.last()@ == given[index
                    - 1]@,
        {
            let ghost before = table.entries@;
            let ghost last = reversed@.last();
            assert(last == given[index as int]);
            assert(all.take(index + 1) =~= all.take(index as int).push(given[index as int]@));
            assert(all.take(index + 1).to_set() =~= all.take(index as int).to_set().insert(
                given[index as int]@,
            )) by {
                set_of_push(all.take(index as int), given[index as int]@);
            }
            if let Some(entry) = reversed.pop() {
                assert(entry == given[index as int]);
                let known: usize = table.entries.len();
                let repeated: bool = if known == 0 {
                    false
                } else {
                    place_text(table.entries[known - 1].first.as_str(), entry.first.as_str())
                        == Placement::Same && place_text(
                        table.entries[known - 1].second.as_str(),
                        entry.second.as_str(),
                    ) == Placement::Same
                };
                if !repeated {
                    proof {
                        if known > 0 {
                            pair_order(before.last()@, entry@, entry@);
                            assert(!given[index as int].ranks_before(&given[index - 1]));
                            assert forall|i: int| 0 <= i < before.len() implies pair_before(
                                (#[trigger] before[i])@,
                                entry@,
                            ) by {
                                if i < before.len() - 1 {
                                    pair_order(before[i]@, before.last()@, entry@);
                                }
                            }
                        }
                    }
                    table.entries.push(entry);
                    proof {
                        assert(related(table.entries@) =~= related(before).push(entry@));
                        set_of_push(related(before), entry@);
                        assert forall|i: int, j: int|
                            0 <= i < j < table.entries@.len() implies pair_before(
                            (#[trigger] table.entries@[i])@,
                            (#[trigger] table.entries@[j])@,
                        ) by {
                            if j < before.len() {
                                assert(before[i] == table.entries@[i]);
                                assert(before[j] == table.entries@[j]);
                            } else {
                                assert(before[i] == table.entries@[i]);
                            }
                        }
                    }
                } else {
                    proof {
                        assert(related(before)[before.len() - 1] == entry@);
                        assert(related(before).to_set().contains(entry@));
                        assert(table@.insert(entry@) =~= table@);
                    }
                }
            }
        }
        assert(all.take(all.len() as int) =~= all);
        table
    }

    /// The set of some pairs. A pair may be given more than once.
    pub fn from_pairs(given: Vec<(String, String)>) -> (result: Self)
        ensures
            result.well_formed(),
            result@ == pairs(given@).to_set(),
    {
        let mut entries: Vec<Related> = Vec::new();
        let mut rest: Vec<(String, String)> = given;
        let ghost all = rest@;
        while rest.len() > 0
            invariant
                rest@ == all.take(rest@.len() as int),
                rest@.len() + entries@.len() == all.len(),
                forall|i: int|
                    0 <= i < entries@.len() ==> (#[trigger] entries@[i])@ == pairs(all)[all.len()
                        - 1 - i],
            decreases rest@.len(),
        {
            let ghost before = rest@;
            match rest.pop() {
                Some(pair) => {
                    assert(pair == all[before.len() - 1]);
                    assert(rest@ =~= all.take(rest@.len() as int));
                    entries.push(Related { first: pair.0, second: pair.1 });
                },
                None => {},
            }
        }
        let ghost unsorted = entries@;
        let ranked: Vec<Related> = sorted(entries);
        proof {
            same_set(ranked@, unsorted);
            let left = related(unsorted);
            let right = pairs(all);
            assert forall|pair: TextPair| left.contains(pair) == right.contains(pair) by {
                if left.contains(pair) {
                    let i = choose|i: int| 0 <= i < left.len() && left[i] == pair;
                    assert(right[all.len() - 1 - i] == pair);
                }
                if right.contains(pair) {
                    let i = choose|i: int| 0 <= i < right.len() && right[i] == pair;
                    assert(left[all.len() - 1 - i] == unsorted[all.len() - 1 - i]@);
                    assert(left[all.len() - 1 - i] == pair);
                }
            }
            assert(left.to_set() =~= right.to_set());
        }
        PairTable::without_repetition(ranked)
    }

    /// The number of pairs.
    pub fn len(&self) -> (result: usize)
        requires
            self.well_formed(),
        ensures
            result == self@.len(),
            self@.finite(),
    {
        proof {
            let all = related(self.entries@);
            assert forall|i: int, j: int| 0 <= i < all.len() && 0 <= j < all.len() && i
                != j implies all[i] != all[j] by {
                let low = if i < j {
                    i
                } else {
                    j
                };
                let high = if i < j {
                    j
                } else {
                    i
                };
                assert(pair_before(self.entries@[low]@, self.entries@[high]@));
                pair_order(all[low], all[low], all[low]);
            }
            assert(all.no_duplicates());
            all.unique_seq_to_set();
        }
        self.entries.len()
    }

    /// The number of pairs whose first text comes before `first`.
    fn place_of(&self, first: &str) -> (result: usize)
        requires
            self.well_formed(),
        ensures
            result <= self.entries@.len(),
            forall|i: int|
                0 <= i < result ==> text_before((#[trigger] self.entries@[i]).first@, first@),
            forall|i: int|
                result <= i < self.entries@.len() ==> !text_before(
                    (#[trigger] self.entries@[i]).first@,
                    first@,
                ),
    {
        let mut low: usize = 0;
        let mut high: usize = self.entries.len();
        while low < high
            invariant
                self.well_formed(),
                low <= high <= self.entries@.len(),
                forall|i: int|
                    0 <= i < low ==> text_before((#[trigger] self.entries@[i]).first@, first@),
                forall|i: int|
                    high <= i < self.entries@.len() ==> !text_before(
                        (#[trigger] self.entries@[i]).first@,
                        first@,
                    ),
            decreases high - low,
        {
            let middle: usize = low + (high - low) / 2;
            let ghost pivot = self.entries@[middle as int].first@;
            if place_text(self.entries[middle].first.as_str(), first) == Placement::Before {
                assert forall|i: int| 0 <= i < middle + 1 implies text_before(
                    (#[trigger] self.entries@[i]).first@,
                    first@,
                ) by {
                    if i < middle {
                        assert(pair_before(self.entries@[i]@, self.entries@[middle as int]@));
                        if self.entries@[i].first@ != pivot {
                            text_order_is_transitive(self.entries@[i].first@, pivot, first@);
                        }
                    }
                }
                low = middle + 1;
            } else {
                assert forall|i: int| middle <= i < self.entries@.len() implies !text_before(
                    (#[trigger] self.entries@[i]).first@,
                    first@,
                ) by {
                    if i > middle && text_before(self.entries@[i].first@, first@) {
                        assert(pair_before(self.entries@[middle as int]@, self.entries@[i]@));
                        if self.entries@[i].first@ != pivot {
                            text_order_is_transitive(pivot, self.entries@[i].first@, first@);
                        }
                    }
                }
                high = middle;
            }
        }
        low
    }

    /// The texts that belong to `first`, each once.
    pub fn partners(&self, first: &str) -> (result: Vec<String>)
        requires
            self.well_formed(),
        ensures
            texts(result@).no_duplicates(),
            forall|second: Seq<char>|
                #![trigger texts(result@).contains(second)]
                #![trigger self@.contains((first@, second))]
                texts(result@).contains(second) <==> self@.contains((first@, second)),
    {
        let start: usize = self.place_of(first);
        let mut result: Vec<String> = Vec::new();
        let mut place: usize = start;
        while place < self.entries.len() && place_text(self.entries[place].first.as_str(), first)
            == Placement::Same
            invariant
                self.well_formed(),
                start <= place <= self.entries@.len(),
                result@.len() == place - start,
                forall|i: int|
                    start <= i < place ==> (#[trigger] self.entries@[i]).first@ == first@
                        && texts(result@)[i - start] == self.entries@[i].second@,
            decreases self.entries@.len() - place,
        {
            let ghost before = texts(result@);
            result.push(self.entries[place].second.clone());
            assert(texts(result@) =~= before.push(self.entries@[place as int].second@));
            place += 1;
        }
        proof {
            let found = texts(result@);
            let all = related(self.entries@);
            assert forall|i: int, j: int|
                0 <= i < found.len() && 0 <= j < found.len() && i != j implies found[i]
                != found[j] by {
                let low = if i < j {
                    i
                } else {
                    j
                };
                let high = if i < j {
                    j
                } else {
                    i
                };
                let left = self.entries@[start + low]@;
                let right = self.entries@[start + high]@;
                assert(pair_before(left, right));
                text_order_is_irreflexive(left.0);
                text_order_is_irreflexive(left.1);
            }
            assert forall|second: Seq<char>|
                #![trigger found.contains(second)]
                #![trigger self@.contains((first@, second))]
                found.contains(second) <==> self@.contains((first@, second)) by {
                if found.contains(second) {
                    let i = choose|i: int| 0 <= i < found.len() && found[i] == second;
                    assert(self.entries@[start + i].first@ == first@);
                    assert(all[start + i] == (first@, second));
                }
                if self@.contains((first@, second)) {
                    let i = choose|i: int| 0 <= i < all.len() && all[i] == (first@, second);
                    assert(self.entries@[i]@ == (first@, second));
                    text_order_is_irreflexive(first@);
                    if i >= place {
                        let stop = self.entries@[place as int];
                        if i > place {
                            assert(pair_before(stop@, self.entries@[i]@));
                        }
                        assert(stop.first@ != first@);
                        assert(false);
                    }
                    assert(found[i - start] == second);
                }
            }
        }
        result
    }

    /// Whether the pair belongs to the set.
    pub fn holds(&self, first: &str, second: &str) -> (result: bool)
        requires
            self.well_formed(),
        ensures
            result == self@.contains((first@, second@)),
    {
        let found: Vec<String> = self.partners(first);
        crate::text::holds_text(found.as_slice(), second)
    }

    /// The first texts of the pairs, each once.
    pub fn firsts(&self) -> (result: Vec<String>)
        requires
            self.well_formed(),
        ensures
            texts(result@).no_duplicates(),
            forall|first: Seq<char>| #[trigger]
                texts(result@).contains(first) <==> exists|second: Seq<char>|
                    self@.contains((first, second)),
    {
        let mut result: Vec<String> = Vec::new();
        let ghost all = related(self.entries@);
        for index in 0..self.entries.len()
            invariant
                self.well_formed(),
                all == related(self.entries@),
                texts(result@).no_duplicates(),
                forall|i: int|
                    0 <= i < index ==> texts(result@).contains(
                        (#[trigger] self.entries@[i]).first@,
                    ),
                forall|k: int|
                    0 <= k < result@.len() ==> exists|i: int|
                        0 <= i < index && (#[trigger] self.entries@[i]).first@ == (
                        #[trigger] texts(result@)[k]),
                index == 0 <==> result@.len() == 0,
                index > 0 ==> texts(result@).last() == self.entries@[index - 1].first@,
        {
            let known: usize = result.len();
            let ghost before = texts(result@);
            let entry: &Related = &self.entries[index];
            let repeated: bool = if known == 0 {
                false
            } else {
                place_text(result[known - 1].as_str(), entry.first.as_str()) == Placement::Same
            };
            if !repeated {
                proof {
                    if before.contains(entry.first@) {
                        let k = choose|k: int| 0 <= k < before.len() && before[k] == entry.first@;
                        let i = choose|i: int|
                            0 <= i < index && (#[trigger] self.entries@[i]).first@ == before[k];
                        assert(index > 0);
                        let last = self.entries@[index - 1];
                        assert(pair_before(last@, entry@));
                        if i < index - 1 {
                            assert(pair_before(self.entries@[i]@, last@));
                        }
                        text_order_is_asymmetric(last.first@, entry.first@);
                        text_order_is_irreflexive(last.first@);
                    }
                }
                result.push(entry.first.clone());
                proof {
                    let after = texts(result@);
                    assert(after =~= before.push(entry.first@));
                    assert forall|i: int| 0 <= i < index + 1 implies after.contains(
                        (#[trigger] self.entries@[i]).first@,
                    ) by {
                        if i < index {
                            let k = choose|k: int|
                                0 <= k < before.len() && before[k] == self.entries@[i].first@;
                            assert(after[k] == before[k]);
                        } else {
                            assert(after[before.len() as int] == entry.first@);
                        }
                    }
                    assert forall|k: int| 0 <= k < result@.len() implies exists|i: int|
                        0 <= i < index + 1 && (#[trigger] self.entries@[i]).first@ == (
                        #[trigger] after[k]) by {
                        if k < before.len() {
                            let i = choose|i: int|
                                0 <= i < index && (#[trigger] self.entries@[i]).first@
                                    == before[k];
                            assert(self.entries@[i].first@ == after[k]);
                        } else {
                            assert(self.entries@[index as int].first@ == after[k]);
                        }
                    }
                }
            }
        }
        proof {
            let found = texts(result@);
            assert forall|first: Seq<char>| #[trigger] found.contains(first) <==> exists|
                second: Seq<char>,
            |
                self@.contains((first, second)) by {
                if found.contains(first) {
                    let k = choose|k: int| 0 <= k < found.len() && found[k] == first;
                    let i = choose|i: int|
                        0 <= i < self.entries@.len() && (#[trigger] self.entries@[i]).first@
                            == found[k];
                    assert(all[i] == (first, self.entries@[i].second@));
                    assert(self@.contains((first, self.entries@[i].second@)));
                }
                if exists|second: Seq<char>| self@.contains((first, second)) {
                    let second = choose|second: Seq<char>| self@.contains((first, second));
                    let i = choose|i: int| 0 <= i < all.len() && all[i] == (first, second);
                    assert(self.entries@[i].first@ == first);
                }
            }
        }
        result
    }
}

proof fn set_of_push(items: Seq<TextPair>, item: TextPair)
    ensures
        items.push(item).to_set() == items.to_set().insert(item),
{
    let more = items.push(item);
    assert forall|value: TextPair|
        more.to_set().contains(value) == items.to_set().insert(item).contains(value) by {
        if items.contains(value) {
            let i = choose|i: int| 0 <= i < items.len() && items[i] == value;
            assert(more[i] == value);
        }
        if value == item {
            assert(more[items.len() as int] == value);
        }
    }
    assert(more.to_set() =~= items.to_set().insert(item));
}

proof fn same_set(left: Seq<Related>, right: Seq<Related>)
    requires
        left.to_multiset() == right.to_multiset(),
    ensures
        related(left).to_set() == related(right).to_set(),
{
    broadcast use vstd::seq_lib::group_to_multiset_ensures;

    assert forall|pair: TextPair| related(left).contains(pair) == related(right).contains(
        pair,
    ) by {
        if related(left).contains(pair) {
            let i = choose|i: int| 0 <= i < left.len() && related(left)[i] == pair;
            assert(left.contains(left[i]));
            assert(right.to_multiset().count(left[i]) > 0);
            assert(right.contains(left[i]));
            let j = choose|j: int| 0 <= j < right.len() && right[j] == left[i];
            assert(related(right)[j] == pair);
        }
        if related(right).contains(pair) {
            let i = choose|i: int| 0 <= i < right.len() && related(right)[i] == pair;
            assert(right.contains(right[i]));
            assert(left.to_multiset().count(right[i]) > 0);
            assert(left.contains(right[i]));
            let j = choose|j: int| 0 <= j < left.len() && left[j] == right[i];
            assert(related(left)[j] == pair);
        }
    }
    assert(related(left).to_set() =~= related(right).to_set());
}

} // verus!
