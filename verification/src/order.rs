//! The order of texts, sorting, and sorted sets of texts.

use vstd::multiset::*;
use vstd::prelude::*;
use vstd::seq_lib::*;

use crate::text::{characters, texts};

verus! {

broadcast use group_to_multiset_ensures;

/// How one value stands to another in an order.
#[derive(Clone, Copy, Debug, PartialEq, Eq, Structural)]
pub enum Placement {
    Before,
    Same,
    After,
}

/// The dictionary order of the scalar values, which is also the order of the UTF-8 bytes.
pub open spec fn text_before(left: Seq<char>, right: Seq<char>) -> bool
    decreases left.len(),
{
    if right.len() == 0 {
        false
    } else if left.len() == 0 {
        true
    } else if left[0] != right[0] {
        left[0] < right[0]
    } else {
        text_before(left.drop_first(), right.drop_first())
    }
}

/// A text does not come before itself.
pub proof fn text_order_is_irreflexive(text: Seq<char>)
    ensures
        !text_before(text, text),
    decreases text.len(),
{
    if text.len() > 0 {
        text_order_is_irreflexive(text.drop_first());
    }
}

/// What comes before something that comes before a text, comes before that text.
pub proof fn text_order_is_transitive(first: Seq<char>, second: Seq<char>, third: Seq<char>)
    requires
        text_before(first, second),
        text_before(second, third),
    ensures
        text_before(first, third),
    decreases first.len(),
{
    if first.len() > 0 && first[0] == second[0] && second[0] == third[0] {
        text_order_is_transitive(first.drop_first(), second.drop_first(), third.drop_first());
    }
}

/// Of two different texts one comes before the other.
pub proof fn text_order_is_total(left: Seq<char>, right: Seq<char>)
    ensures
        text_before(left, right) || left == right || text_before(right, left),
    decreases left.len(),
{
    if left.len() > 0 && right.len() > 0 {
        if left[0] == right[0] {
            text_order_is_total(left.drop_first(), right.drop_first());
            if left.drop_first() == right.drop_first() {
                assert(left =~= seq![left[0]] + left.drop_first());
                assert(right =~= seq![right[0]] + right.drop_first());
            }
        }
    } else if left.len() == 0 && right.len() == 0 {
        assert(left =~= right);
    }
}

/// Two texts never come before each other.
pub proof fn text_order_is_asymmetric(left: Seq<char>, right: Seq<char>)
    requires
        text_before(left, right),
    ensures
        !text_before(right, left),
{
    if text_before(right, left) {
        text_order_is_transitive(left, right, left);
        text_order_is_irreflexive(left);
    }
}

proof fn same_start_decides_nothing(left: Seq<char>, right: Seq<char>, count: int)
    requires
        0 <= count <= left.len(),
        count <= right.len(),
        left.take(count) == right.take(count),
    ensures
        text_before(left, right) == text_before(left.skip(count), right.skip(count)),
    decreases count,
{
    if count > 0 {
        assert(left[0] == left.take(count)[0]);
        assert(right[0] == right.take(count)[0]);
        let shorter_left = left.drop_first();
        let shorter_right = right.drop_first();
        assert(shorter_left.take(count - 1) =~= left.take(count).drop_first());
        assert(shorter_right.take(count - 1) =~= right.take(count).drop_first());
        same_start_decides_nothing(shorter_left, shorter_right, count - 1);
        assert(shorter_left.skip(count - 1) =~= left.skip(count));
        assert(shorter_right.skip(count - 1) =~= right.skip(count));
    } else {
        assert(left.skip(0) =~= left);
        assert(right.skip(0) =~= right);
    }
}

/// Where `left` stands to `right` in the order of texts.
pub fn place_text(left: &str, right: &str) -> (result: Placement)
    ensures
        result == Placement::Before <==> text_before(left@, right@),
        result == Placement::Same <==> left@ == right@,
        result == Placement::After <==> text_before(right@, left@),
{
    let first: Vec<char> = characters(left);
    let second: Vec<char> = characters(right);
    let mut index: usize = 0;
    while index < first.len() && index < second.len() && first[index] == second[index]
        invariant
            first@ == left@,
            second@ == right@,
            index <= first@.len(),
            index <= second@.len(),
            left@.take(index as int) == right@.take(index as int),
        decreases first@.len() - index,
    {
        assert(left@.take(index + 1) =~= left@.take(index as int).push(left@[index as int]));
        assert(right@.take(index + 1) =~= right@.take(index as int).push(right@[index as int]));
        index += 1;
    }
    proof {
        same_start_decides_nothing(left@, right@, index as int);
        same_start_decides_nothing(right@, left@, index as int);
        text_order_is_irreflexive(left@);
    }
    if index == first.len() {
        if index == second.len() {
            assert(left@.take(index as int) =~= left@);
            assert(right@.take(index as int) =~= right@);
            Placement::Same
        } else {
            Placement::Before
        }
    } else if index == second.len() {
        Placement::After
    } else if first[index] < second[index] {
        Placement::Before
    } else {
        Placement::After
    }
}

// ---------------------------------------------------------------------------
// Sorting
// ---------------------------------------------------------------------------

/// A value with a place in an order. Values that rank alike keep no order of their own.
pub trait Ranked: Sized {
    /// Whether the value belongs strictly before the other.
    spec fn ranks_before(&self, other: &Self) -> bool;

    /// The ranking is a strict weak order.
    proof fn ranking_laws(first: &Self, second: &Self, third: &Self)
        ensures
            first.ranks_before(second) ==> !second.ranks_before(first),
            !first.ranks_before(second) && !second.ranks_before(third) ==> !first.ranks_before(
                third,
            ),
    ;

    /// Whether the value belongs strictly before the other.
    fn comes_before(&self, other: &Self) -> (result: bool)
        ensures
            result == self.ranks_before(other),
    ;
}

/// Whether no value ranks before an earlier one.
pub open spec fn is_ranked<T: Ranked>(items: Seq<T>) -> bool {
    forall|i: int, j: int|
        0 <= i < j < items.len() ==> !(#[trigger] items[j].ranks_before(&#[trigger] items[i]))
}

/// Whether no value ranks before a later one.
spec fn is_ranked_backwards<T: Ranked>(items: Seq<T>) -> bool {
    forall|i: int, j: int|
        0 <= i < j < items.len() ==> !(#[trigger] items[i].ranks_before(&#[trigger] items[j]))
}

/// Whether no value of `high` ranks before a value of `low`.
spec fn ranks_above<T: Ranked>(low: Seq<T>, high: Seq<T>) -> bool {
    forall|i: int, j: int|
        0 <= i < low.len() && 0 <= j < high.len() ==> !(#[trigger] high[j].ranks_before(
            &#[trigger] low[i],
        ))
}

/// The values of two ranked lists as one ranked list.
fn merged<T: Ranked>(left: Vec<T>, right: Vec<T>) -> (result: Vec<T>)
    requires
        is_ranked(left@),
        is_ranked(right@),
    ensures
        is_ranked(result@),
        result@.to_multiset() == left@.to_multiset().add(right@.to_multiset()),
{
    let ghost total = left@.to_multiset().add(right@.to_multiset());
    let mut left: Vec<T> = left;
    let mut right: Vec<T> = right;
    let mut back: Vec<T> = Vec::new();
    assert(total =~= left@.to_multiset().add(right@.to_multiset()).add(back@.to_multiset()));
    while left.len() > 0 || right.len() > 0
        invariant
            is_ranked(left@),
            is_ranked(right@),
            is_ranked_backwards(back@),
            ranks_above(left@, back@),
            ranks_above(right@, back@),
            total == left@.to_multiset().add(right@.to_multiset()).add(back@.to_multiset()),
        decreases left@.len() + right@.len(),
    {
        let from_left: bool = if right.len() == 0 {
            true
        } else if left.len() == 0 {
            false
        } else {
            right[right.len() - 1].comes_before(&left[left.len() - 1])
        };
        let ghost old_left = left@;
        let ghost old_right = right@;
        let ghost old_back = back@;
        if from_left {
            let item: T = left.pop().unwrap();
            assert(old_left =~= left@.push(item));
            assert forall|i: int| 0 <= i < old_right.len() implies !item.ranks_before(
                &#[trigger] old_right[i],
            ) by {
                let last = old_right.last();
                T::ranking_laws(&item, &last, &old_right[i]);
                T::ranking_laws(&last, &item, &old_right[i]);
                if i < old_right.len() - 1 {
                    assert(!old_right[old_right.len() - 1].ranks_before(&old_right[i]));
                }
            }
            back.push(item);
        } else {
            let item: T = right.pop().unwrap();
            assert(old_right =~= right@.push(item));
            assert forall|i: int| 0 <= i < old_left.len() implies !item.ranks_before(
                &#[trigger] old_left[i],
            ) by {
                let last = old_left.last();
                T::ranking_laws(&item, &last, &old_left[i]);
                if i < old_left.len() - 1 {
                    assert(!old_left[old_left.len() - 1].ranks_before(&old_left[i]));
                }
            }
            back.push(item);
        }
        assert(total =~= left@.to_multiset().add(right@.to_multiset()).add(back@.to_multiset()));
    }
    assert(left@ =~= Seq::<T>::empty());
    assert(right@ =~= Seq::<T>::empty());
    assert(total =~= back@.to_multiset());
    let mut result: Vec<T> = Vec::new();
    assert(total =~= back@.to_multiset().add(result@.to_multiset()));
    while back.len() > 0
        invariant
            is_ranked(result@),
            is_ranked_backwards(back@),
            ranks_above(result@, back@),
            total == back@.to_multiset().add(result@.to_multiset()),
        decreases back@.len(),
    {
        let ghost old_back = back@;
        let item: T = back.pop().unwrap();
        assert(old_back =~= back@.push(item));
        result.push(item);
        assert(total =~= back@.to_multiset().add(result@.to_multiset()));
    }
    assert(back@ =~= Seq::<T>::empty());
    assert(total =~= result@.to_multiset());
    result
}

/// The same values, ranked.
pub fn sorted<T: Ranked>(items: Vec<T>) -> (result: Vec<T>)
    ensures
        is_ranked(result@),
        result@.to_multiset() == items@.to_multiset(),
        result@.len() == items@.len(),
    decreases items@.len(),
{
    let count: usize = items.len();
    if count < 2 {
        return items;
    }
    let ghost all = items@;
    let mut left: Vec<T> = items;
    let right: Vec<T> = left.split_off(count / 2);
    assert(all =~= left@ + right@);
    proof {
        lemma_multiset_commutative(left@, right@);
    }
    let left: Vec<T> = sorted(left);
    let right: Vec<T> = sorted(right);
    let result: Vec<T> = merged(left, right);
    assert(result@.len() == result@.to_multiset().len());
    assert(all.len() == all.to_multiset().len());
    result
}

/// Texts rank by the order of texts.
impl Ranked for String {
    open spec fn ranks_before(&self, other: &Self) -> bool {
        text_before(self@, other@)
    }

    proof fn ranking_laws(first: &Self, second: &Self, third: &Self) {
        if text_before(first@, second@) {
            text_order_is_asymmetric(first@, second@);
        }
        text_order_is_total(first@, second@);
        text_order_is_total(second@, third@);
        if text_before(first@, third@) {
            if text_before(second@, first@) {
                text_order_is_transitive(second@, first@, third@);
            }
        }
    }

    fn comes_before(&self, other: &Self) -> (result: bool) {
        place_text(self.as_str(), other.as_str()) == Placement::Before
    }
}

// ---------------------------------------------------------------------------
// Sets of texts
// ---------------------------------------------------------------------------

/// A set of texts, kept in the order of texts.
#[derive(Debug)]
pub struct TextSet {
    items: Vec<String>,
}

/// Whether each text comes before all later ones.
pub open spec fn is_increasing(items: Seq<Seq<char>>) -> bool {
    forall|i: int, j: int|
        0 <= i < j < items.len() ==> text_before(#[trigger] items[i], #[trigger] items[j])
}

impl View for TextSet {
    type V = Set<Seq<char>>;

    closed spec fn view(&self) -> Set<Seq<char>> {
        texts(self.items@).to_set()
    }
}

impl TextSet {
    /// The texts stand in increasing order, so none stands twice.
    pub closed spec fn well_formed(&self) -> bool {
        is_increasing(texts(self.items@))
    }

    pub fn new() -> (result: Self)
        ensures
            result.well_formed(),
            result@ == Set::<Seq<char>>::empty(),
    {
        let result: TextSet = TextSet { items: Vec::new() };
        assert(result@ =~= Set::<Seq<char>>::empty());
        result
    }

    /// The number of texts in the set.
    pub fn len(&self) -> (result: usize)
        requires
            self.well_formed(),
        ensures
            result == self@.len(),
            self@.finite(),
    {
        proof {
            let all = texts(self.items@);
            assert forall|i: int, j: int| 0 <= i < all.len() && 0 <= j < all.len() && i
                != j implies all[i] != all[j] by {
                if i < j {
                    text_order_is_irreflexive(all[i]);
                } else {
                    text_order_is_irreflexive(all[j]);
                }
            }
            assert(all.no_duplicates());
            all.unique_seq_to_set();
        }
        self.items.len()
    }

    /// The texts of the set in their order.
    pub fn listed(&self) -> (result: Vec<String>)
        requires
            self.well_formed(),
        ensures
            is_increasing(texts(result@)),
            texts(result@).to_set() == self@,
    {
        let mut result: Vec<String> = Vec::new();
        for index in 0..self.items.len()
            invariant
                result@.len() == index,
                forall|i: int|
                    0 <= i < index ==> #[trigger] texts(result@)[i] == texts(self.items@)[i],
        {
            let ghost before = texts(result@);
            result.push(self.items[index].clone());
            assert(texts(result@) =~= before.push(texts(self.items@)[index as int]));
        }
        assert(texts(result@) =~= texts(self.items@));
        result
    }

    /// The number of texts in the set that come before `text`.
    fn place_of(&self, text: &str) -> (result: usize)
        requires
            self.well_formed(),
        ensures
            result <= self.items@.len(),
            forall|i: int| 0 <= i < result ==> text_before(#[trigger] texts(self.items@)[i], text@),
            forall|i: int|
                result <= i < self.items@.len() ==> !text_before(
                    #[trigger] texts(self.items@)[i],
                    text@,
                ),
    {
        let ghost all = texts(self.items@);
        let mut low: usize = 0;
        let mut high: usize = self.items.len();
        while low < high
            invariant
                self.well_formed(),
                all == texts(self.items@),
                low <= high <= self.items@.len(),
                forall|i: int| 0 <= i < low ==> text_before(#[trigger] all[i], text@),
                forall|i: int| high <= i < all.len() ==> !text_before(#[trigger] all[i], text@),
            decreases high - low,
        {
            let middle: usize = low + (high - low) / 2;
            assert(all[middle as int] == self.items@[middle as int]@);
            if place_text(self.items[middle].as_str(), text) == Placement::Before {
                assert forall|i: int| 0 <= i < middle + 1 implies text_before(
                    #[trigger] all[i],
                    text@,
                ) by {
                    if i < middle {
                        text_order_is_transitive(all[i], all[middle as int], text@);
                    }
                }
                low = middle + 1;
            } else {
                assert forall|i: int| middle <= i < all.len() implies !text_before(
                    #[trigger] all[i],
                    text@,
                ) by {
                    if i > middle && text_before(all[i], text@) {
                        text_order_is_transitive(all[middle as int], all[i], text@);
                    }
                }
                high = middle;
            }
        }
        low
    }

    /// Whether the set holds the text.
    pub fn contains(&self, text: &str) -> (result: bool)
        requires
            self.well_formed(),
        ensures
            result == self@.contains(text@),
    {
        let ghost all = texts(self.items@);
        let place: usize = self.place_of(text);
        if place < self.items.len() && place_text(self.items[place].as_str(), text)
            == Placement::Same {
            assert(all[place as int] == text@);
            return true;
        }
        proof {
            if all.contains(text@) {
                let i = choose|i: int| 0 <= i < all.len() && all[i] == text@;
                text_order_is_irreflexive(text@);
                if place < i {
                    assert(text_before(all[place as int], all[i]));
                }
            }
        }
        false
    }

    /// Adds the text; `false` if the set holds it already.
    pub fn insert(&mut self, text: &str) -> (result: bool)
        requires
            old(self).well_formed(),
        ensures
            final(self).well_formed(),
            final(self)@ == old(self)@.insert(text@),
            result == !old(self)@.contains(text@),
    {
        if self.contains(text) {
            assert(self@.insert(text@) =~= self@);
            return false;
        }
        let ghost before = texts(self.items@);
        let place: usize = self.place_of(text);
        self.items.insert(place, text.to_owned());
        let ghost after = texts(self.items@);
        proof {
            assert(after =~= before.insert(place as int, text@));
            assert forall|i: int, j: int| 0 <= i < j < after.len() implies text_before(
                #[trigger] after[i],
                #[trigger] after[j],
            ) by {
                if j == place {
                    assert(after[i] == before[i]);
                } else if i == place {
                    assert(after[j] == before[j - 1]);
                    text_order_is_total(before[j - 1], text@);
                    assert(before.contains(before[j - 1]));
                } else {
                    let left = if i < place {
                        i
                    } else {
                        i - 1
                    };
                    let right = if j < place {
                        j
                    } else {
                        j - 1
                    };
                    assert(after[i] == before[left] && after[j] == before[right]);
                }
            }
            assert forall|value: Seq<char>|
                after.to_set().contains(value) == before.to_set().insert(text@).contains(value) by {
                if before.contains(value) {
                    let i = choose|i: int| 0 <= i < before.len() && before[i] == value;
                    if i < place {
                        assert(after[i] == value);
                    } else {
                        assert(after[i + 1] == value);
                    }
                }
                if value == text@ {
                    assert(after[place as int] == value);
                }
                if after.contains(value) {
                    let i = choose|i: int| 0 <= i < after.len() && after[i] == value;
                    if i < place {
                        assert(before[i] == value);
                    } else if i > place {
                        assert(before[i - 1] == value);
                    }
                }
            }
            assert(after.to_set() =~= before.to_set().insert(text@));
        }
        true
    }
}

/// Texts are ordered by the first characters in which they differ, and a text that begins another one
/// comes first.
pub proof fn the_first_difference_decides(
    start: Seq<char>,
    left: char,
    right: char,
    behind_left: Seq<char>,
    behind_right: Seq<char>,
)
    requires
        left != right,
    ensures
        text_before(start.push(left) + behind_left, start.push(right) + behind_right) <==> (left
            as u32) < (right as u32),
        text_before(start, start.push(right) + behind_right),
    decreases start.len(),
{
    let one = start.push(left) + behind_left;
    let other = start.push(right) + behind_right;
    if start.len() > 0 {
        let rest = start.drop_first();
        the_first_difference_decides(rest, left, right, behind_left, behind_right);
        assert(one.drop_first() =~= rest.push(left) + behind_left);
        assert(other.drop_first() =~= rest.push(right) + behind_right);
        assert(one[0] == start[0] && other[0] == start[0]);
    } else {
        assert(one[0] == left && other[0] == right);
    }
}

} // verus!
