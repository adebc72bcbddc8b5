//! Edit distance between texts and the edits that turn one into the other.

use vstd::prelude::*;

use crate::text::{ascii_word, characters, is_ascii_word};

verus! {

pub open spec fn least(left: nat, right: nat) -> nat {
    if left <= right {
        left
    } else {
        right
    }
}

pub open spec fn greatest(left: nat, right: nat) -> nat {
    if left <= right {
        right
    } else {
        left
    }
}

/// One if the characters differ, else zero.
pub open spec fn mismatch(left: char, right: char) -> nat {
    if left == right {
        0
    } else {
        1
    }
}

/// The least number of substitutions, deletions and insertions of one character each that
/// turn `from` into `to`.
pub open spec fn distance(from: Seq<char>, to: Seq<char>) -> nat
    decreases from.len() + to.len(),
{
    if from.len() == 0 {
        to.len()
    } else if to.len() == 0 {
        from.len()
    } else {
        let substituted = distance(from.drop_last(), to.drop_last()) + mismatch(
            from.last(),
            to.last(),
        );
        let deleted = distance(from.drop_last(), to) + 1;
        let inserted = distance(from, to.drop_last()) + 1;
        least(least(substituted, deleted), inserted)
    }
}

// ---------------------------------------------------------------------------
// Laws
// ---------------------------------------------------------------------------

/// The distance is at most the length of the longer text and at least the difference of the
/// lengths.
pub proof fn distance_is_bounded_by_the_lengths(from: Seq<char>, to: Seq<char>)
    ensures
        distance(from, to) <= greatest(from.len(), to.len()),
        from.len() <= to.len() + distance(from, to),
        to.len() <= from.len() + distance(from, to),
    decreases from.len() + to.len(),
{
    if from.len() > 0 && to.len() > 0 {
        distance_is_bounded_by_the_lengths(from.drop_last(), to.drop_last());
        distance_is_bounded_by_the_lengths(from.drop_last(), to);
        distance_is_bounded_by_the_lengths(from, to.drop_last());
    }
}

/// Only equal texts have distance zero.
pub proof fn distance_is_zero_only_between_equal_texts(from: Seq<char>, to: Seq<char>)
    ensures
        distance(from, to) == 0 <==> from == to,
    decreases from.len() + to.len(),
{
    if from.len() > 0 && to.len() > 0 {
        distance_is_zero_only_between_equal_texts(from.drop_last(), to.drop_last());
        assert(from =~= from.drop_last().push(from.last()));
        assert(to =~= to.drop_last().push(to.last()));
    } else if from.len() == 0 && to.len() == 0 {
        assert(from =~= to);
    }
}

/// The distance is the same in both directions.
pub proof fn distance_is_symmetric(from: Seq<char>, to: Seq<char>)
    ensures
        distance(from, to) == distance(to, from),
    decreases from.len() + to.len(),
{
    if from.len() > 0 && to.len() > 0 {
        distance_is_symmetric(from.drop_last(), to.drop_last());
        distance_is_symmetric(from.drop_last(), to);
        distance_is_symmetric(from, to.drop_last());
    }
}

/// A detour over a third text is never shorter.
pub proof fn distance_obeys_the_triangle_inequality(
    first: Seq<char>,
    second: Seq<char>,
    third: Seq<char>,
)
    ensures
        distance(first, third) <= distance(first, second) + distance(second, third),
    decreases first.len() + second.len() + third.len(),
{
    distance_is_bounded_by_the_lengths(first, third);
    distance_is_bounded_by_the_lengths(first, second);
    distance_is_bounded_by_the_lengths(second, third);
    if first.len() > 0 && second.len() > 0 && third.len() > 0 {
        let (a, b, c) = (first.drop_last(), second.drop_last(), third.drop_last());
        distance_obeys_the_triangle_inequality(a, second, third);
        distance_obeys_the_triangle_inequality(first, second, c);
        distance_obeys_the_triangle_inequality(first, b, third);
        distance_obeys_the_triangle_inequality(first, b, c);
        distance_obeys_the_triangle_inequality(a, b, third);
        distance_obeys_the_triangle_inequality(a, b, c);
    }
}

// ---------------------------------------------------------------------------
// The distance table
// ---------------------------------------------------------------------------

/// The distance between the first `row` characters of one text and the first `column` of the
/// other.
pub open spec fn cell(from: Seq<char>, to: Seq<char>, row: int, column: int) -> nat {
    distance(from.take(row), to.take(column))
}

/// Whether `values` are the distances of the first `row` characters to each start of `to`.
pub open spec fn is_row(values: Seq<usize>, from: Seq<char>, to: Seq<char>, row: int) -> bool {
    &&& values.len() == to.len() + 1
    &&& forall|j: int| 0 <= j <= to.len() ==> #[trigger] values[j] == cell(from, to, row, j)
}

proof fn cell_step(from: Seq<char>, to: Seq<char>, row: int, column: int)
    requires
        0 <= row <= from.len(),
        0 <= column <= to.len(),
    ensures
        row == 0 ==> cell(from, to, row, column) == column,
        column == 0 ==> cell(from, to, row, column) == row,
        row > 0 && column > 0 ==> cell(from, to, row, column) == least(
            least(
                cell(from, to, row - 1, column - 1) + mismatch(from[row - 1], to[column - 1]),
                cell(from, to, row - 1, column) + 1,
            ),
            cell(from, to, row, column - 1) + 1,
        ),
        cell(from, to, row, column) <= greatest(row as nat, column as nat),
{
    distance_is_bounded_by_the_lengths(from.take(row), to.take(column));
    if row > 0 {
        assert(from.take(row).drop_last() =~= from.take(row - 1));
    }
    if column > 0 {
        assert(to.take(column).drop_last() =~= to.take(column - 1));
    }
}

fn first_row(from: &[char], to: &[char]) -> (result: Vec<usize>)
    ensures
        is_row(result@, from@, to@, 0),
{
    let mut result: Vec<usize> = Vec::new();
    result.push(0);
    proof {
        cell_step(from@, to@, 0, 0);
    }
    for column in 0..to.len()
        invariant
            result@.len() == column + 1,
            forall|j: int| 0 <= j <= column ==> #[trigger] result@[j] == cell(from@, to@, 0, j),
    {
        proof {
            cell_step(from@, to@, 0, column + 1);
        }
        result.push(column + 1);
    }
    result
}

/// The smallest of three numbers.
fn smallest(first: usize, second: usize, third: usize) -> (result: usize)
    ensures
        result == least(least(first as nat, second as nat), third as nat),
{
    let result: usize = if first <= second {
        first
    } else {
        second
    };
    if result <= third {
        result
    } else {
        third
    }
}

fn next_row(from: &[char], to: &[char], row: usize, previous: &[usize]) -> (result: Vec<usize>)
    requires
        row < from@.len(),
        is_row(previous@, from@, to@, row as int),
    ensures
        is_row(result@, from@, to@, row + 1),
{
    let rows: usize = from.len();
    assert(row < rows);
    let mut result: Vec<usize> = Vec::new();
    proof {
        cell_step(from@, to@, row + 1, 0);
    }
    result.push(row + 1);
    for column in 0..to.len()
        invariant
            row < from@.len(),
            is_row(previous@, from@, to@, row as int),
            result@.len() == column + 1,
            forall|j: int|
                0 <= j <= column ==> #[trigger] result@[j] == cell(from@, to@, row + 1, j),
    {
        proof {
            cell_step(from@, to@, row + 1, column + 1);
            cell_step(from@, to@, row as int, column as int);
        }
        assert(previous@[column as int] == cell(from@, to@, row as int, column as int));
        let kept: usize = previous[column];
        let substituted: usize = if from[row] == to[column] {
            kept
        } else {
            kept.saturating_add(1)
        };
        assert(previous@[column + 1] == cell(from@, to@, row as int, column + 1));
        let deleted: usize = previous[column + 1].saturating_add(1);
        let inserted: usize = result[column].saturating_add(1);
        result.push(smallest(substituted, deleted, inserted));
    }
    result
}

/// The number of edits between two texts.
pub fn edit_distance(from: &str, to: &str) -> (result: usize)
    ensures
        result == distance(from@, to@),
{
    let source: Vec<char> = characters(from);
    let target: Vec<char> = characters(to);
    let mut current: Vec<usize> = first_row(source.as_slice(), target.as_slice());
    for row in 0..source.len()
        invariant
            source@ == from@,
            target@ == to@,
            is_row(current@, from@, to@, row as int),
    {
        current = next_row(source.as_slice(), target.as_slice(), row, current.as_slice());
    }
    assert(from@.take(from@.len() as int) =~= from@);
    assert(to@.take(to@.len() as int) =~= to@);
    assert(current@[to@.len() as int] == cell(from@, to@, from@.len() as int, to@.len() as int));
    current[target.len()]
}

// ---------------------------------------------------------------------------
// The edits
// ---------------------------------------------------------------------------

/// One position of an alignment of two texts.
#[derive(Clone, Copy, Debug, PartialEq, Eq, Structural)]
pub enum Edit {
    Match,
    Substitute(char, char),
    Delete(char),
    Insert(char),
}

pub open spec fn substitution(from: char, to: char) -> Edit {
    Edit::Substitute(from, to)
}

pub open spec fn deletion(from: char) -> Edit {
    Edit::Delete(from)
}

pub open spec fn insertion(to: char) -> Edit {
    Edit::Insert(to)
}

/// The edits of a shortest way from one text to the other. Where several ways are equally
/// short, the last edit is a match rather than a substitution, a substitution rather than a
/// deletion, and a deletion rather than an insertion.
pub open spec fn shortest_edits(from: Seq<char>, to: Seq<char>) -> Seq<Edit>
    decreases from.len() + to.len(),
{
    let cost = distance(from, to);
    if from.len() > 0 && to.len() > 0 && from.last() == to.last() && cost == distance(
        from.drop_last(),
        to.drop_last(),
    ) {
        shortest_edits(from.drop_last(), to.drop_last()).push(Edit::Match)
    } else if from.len() > 0 && to.len() > 0 && cost == distance(from.drop_last(), to.drop_last())
        + 1 {
        shortest_edits(from.drop_last(), to.drop_last()).push(
            substitution(from.last(), to.last()),
        )
    } else if from.len() > 0 && cost == distance(from.drop_last(), to) + 1 {
        shortest_edits(from.drop_last(), to).push(deletion(from.last()))
    } else if to.len() > 0 {
        shortest_edits(from, to.drop_last()).push(insertion(to.last()))
    } else {
        Seq::empty()
    }
}

/// The number of edits that change something.
pub open spec fn changes(edits: Seq<Edit>) -> nat
    decreases edits.len(),
{
    if edits.len() == 0 {
        0
    } else if edits.last() is Match {
        changes(edits.drop_last())
    } else {
        changes(edits.drop_last()) + 1
    }
}

/// The chosen edits change exactly as many characters as the distance says.
pub proof fn shortest_edits_are_as_many_as_the_distance(from: Seq<char>, to: Seq<char>)
    ensures
        changes(shortest_edits(from, to)) == distance(from, to),
    decreases from.len() + to.len(),
{
    let edits = shortest_edits(from, to);
    if from.len() > 0 && to.len() > 0 {
        shortest_edits_are_as_many_as_the_distance(from.drop_last(), to.drop_last());
    }
    if from.len() > 0 {
        shortest_edits_are_as_many_as_the_distance(from.drop_last(), to);
    }
    if to.len() > 0 {
        shortest_edits_are_as_many_as_the_distance(from, to.drop_last());
    }
    if from.len() > 0 || to.len() > 0 {
        let cost = distance(from, to);
        if from.len() > 0 && to.len() > 0 && from.last() == to.last() && cost == distance(
            from.drop_last(),
            to.drop_last(),
        ) {
            assert(edits.drop_last() =~= shortest_edits(from.drop_last(), to.drop_last()));
        } else if from.len() > 0 && to.len() > 0 && cost == distance(
            from.drop_last(),
            to.drop_last(),
        ) + 1 {
            assert(edits.drop_last() =~= shortest_edits(from.drop_last(), to.drop_last()));
        } else if from.len() > 0 && cost == distance(from.drop_last(), to) + 1 {
            assert(edits.drop_last() =~= shortest_edits(from.drop_last(), to));
        } else {
            assert(to.len() > 0);
            assert(cost == distance(from, to.drop_last()) + 1);
            assert(edits.drop_last() =~= shortest_edits(from, to.drop_last()));
        }
    }
}

/// What the edits make of a text; nothing if they are not edits of that text.
pub open spec fn edited(from: Seq<char>, edits: Seq<Edit>) -> Option<Seq<char>>
    decreases edits.len(),
{
    if edits.len() == 0 {
        if from.len() == 0 {
            Some(Seq::empty())
        } else {
            None
        }
    } else {
        let rest = edits.drop_last();
        match edits.last() {
            Edit::Insert(added) => match edited(from, rest) {
                Some(text) => Some(text.push(added)),
                None => None,
            },
            Edit::Match => if from.len() == 0 {
                None
            } else {
                match edited(from.drop_last(), rest) {
                    Some(text) => Some(text.push(from.last())),
                    None => None,
                }
            },
            Edit::Substitute(replaced, added) => if from.len() == 0 || from.last() != replaced {
                None
            } else {
                match edited(from.drop_last(), rest) {
                    Some(text) => Some(text.push(added)),
                    None => None,
                }
            },
            Edit::Delete(removed) => if from.len() == 0 || from.last() != removed {
                None
            } else {
                edited(from.drop_last(), rest)
            },
        }
    }
}

/// The chosen edits lead from one text to the other.
pub proof fn shortest_edits_lead_to_the_target(from: Seq<char>, to: Seq<char>)
    ensures
        edited(from, shortest_edits(from, to)) == Some(to),
    decreases from.len() + to.len(),
{
    let edits = shortest_edits(from, to);
    let cost = distance(from, to);
    if to.len() > 0 {
        assert(to.drop_last().push(to.last()) =~= to);
    }
    if from.len() > 0 && to.len() > 0 && from.last() == to.last() && cost == distance(
        from.drop_last(),
        to.drop_last(),
    ) {
        shortest_edits_lead_to_the_target(from.drop_last(), to.drop_last());
        assert(edits.drop_last() =~= shortest_edits(from.drop_last(), to.drop_last()));
    } else if from.len() > 0 && to.len() > 0 && cost == distance(from.drop_last(), to.drop_last())
        + 1 {
        shortest_edits_lead_to_the_target(from.drop_last(), to.drop_last());
        assert(edits.drop_last() =~= shortest_edits(from.drop_last(), to.drop_last()));
    } else if from.len() > 0 && cost == distance(from.drop_last(), to) + 1 {
        shortest_edits_lead_to_the_target(from.drop_last(), to);
        assert(edits.drop_last() =~= shortest_edits(from.drop_last(), to));
    } else if to.len() > 0 {
        shortest_edits_lead_to_the_target(from, to.drop_last());
        assert(edits.drop_last() =~= shortest_edits(from, to.drop_last()));
    } else {
        assert(to =~= Seq::<char>::empty());
    }
}

proof fn moved_to_the_end(rest: Seq<Edit>, edit: Edit, backwards: Seq<Edit>)
    ensures
        rest + backwards.push(edit).reverse() == rest.push(edit) + backwards.reverse(),
{
    assert(backwards.push(edit).reverse() =~= seq![edit] + backwards.reverse());
    assert(rest + (seq![edit] + backwards.reverse()) =~= rest.push(edit) + backwards.reverse());
}

/// The edits of a shortest way from one text to the other.
#[verifier::rlimit(40)]
pub fn edits_between(from: &[char], to: &[char]) -> (result: Vec<Edit>)
    ensures
        result@ == shortest_edits(from@, to@),
{
    let mut table: Vec<Vec<usize>> = Vec::new();
    let start: Vec<usize> = first_row(from, to);
    table.push(start);
    for row in 0..from.len()
        invariant
            table@.len() == row + 1,
            forall|i: int| 0 <= i <= row ==> is_row((#[trigger] table@[i])@, from@, to@, i),
    {
        let following: Vec<usize> = next_row(from, to, row, table[row].as_slice());
        table.push(following);
    }
    let mut backwards: Vec<Edit> = Vec::new();
    let mut row: usize = from.len();
    let mut column: usize = to.len();
    assert(from@.take(from@.len() as int) =~= from@);
    assert(to@.take(to@.len() as int) =~= to@);
    assert(shortest_edits(from@, to@) =~= shortest_edits(
        from@.take(row as int),
        to@.take(column as int),
    ) + backwards@.reverse());
    while row > 0 || column > 0
        invariant
            row <= from@.len(),
            column <= to@.len(),
            table@.len() == from@.len() + 1,
            forall|i: int| 0 <= i <= from@.len() ==> is_row((#[trigger] table@[i])@, from@, to@, i),
            shortest_edits(from@, to@) == shortest_edits(
                from@.take(row as int),
                to@.take(column as int),
            ) + backwards@.reverse(),
        decreases row + column,
    {
        let ghost (shown, aim) = (from@.take(row as int), to@.take(column as int));
        let ghost before = backwards@;
        proof {
            if row > 0 {
                assert(shown.drop_last() =~= from@.take(row - 1));
            }
            if column > 0 {
                assert(aim.drop_last() =~= to@.take(column - 1));
            }
            assert(is_row(table@[row as int]@, from@, to@, row as int));
            if row > 0 {
                assert(is_row(table@[row - 1]@, from@, to@, row - 1));
            }
            cell_step(from@, to@, row as int, column as int);
        }
        let cost: usize = table[row][column];
        assert(cost == distance(shown, aim));
        let diagonal: usize = if row > 0 && column > 0 {
            table[row - 1][column - 1]
        } else {
            0
        };
        let above: usize = if row > 0 {
            table[row - 1][column]
        } else {
            0
        };
        assert(row > 0 && column > 0 ==> diagonal == distance(shown.drop_last(), aim.drop_last()));
        assert(row > 0 ==> above == distance(shown.drop_last(), aim));
        let edit: Edit;
        if row > 0 && column > 0 && from[row - 1] == to[column - 1] && cost == diagonal {
            edit = Edit::Match;
            row -= 1;
            column -= 1;
        } else if row > 0 && column > 0 && cost > diagonal && cost - diagonal == 1 {
            edit = Edit::Substitute(from[row - 1], to[column - 1]);
            row -= 1;
            column -= 1;
        } else if row > 0 && cost > above && cost - above == 1 {
            edit = Edit::Delete(from[row - 1]);
            row -= 1;
        } else {
            edit = Edit::Insert(to[column - 1]);
            column -= 1;
        }
        backwards.push(edit);
        proof {
            let rest = shortest_edits(from@.take(row as int), to@.take(column as int));
            assert(shortest_edits(shown, aim) == rest.push(edit));
            moved_to_the_end(rest, edit, before);
        }
    }
    assert(from@.take(0) =~= Seq::<char>::empty());
    assert(to@.take(0) =~= Seq::<char>::empty());
    assert(shortest_edits(from@, to@) =~= backwards@.reverse());
    let mut result: Vec<Edit> = Vec::new();
    let count: usize = backwards.len();
    for index in 0..count
        invariant
            count == backwards@.len(),
            result@ == backwards@.reverse().take(index as int),
    {
        result.push(backwards[count - 1 - index]);
        assert(result@ =~= backwards@.reverse().take(index + 1));
    }
    assert(result@ =~= backwards@.reverse());
    result
}

// ---------------------------------------------------------------------------
// Regions of change
// ---------------------------------------------------------------------------

/// Whether the edit leaves every ASCII letter and digit alone.
pub open spec fn spares_ascii(edit: Edit) -> bool {
    match edit {
        Edit::Match => true,
        Edit::Substitute(from, to) => !is_ascii_word(from) && !is_ascii_word(to),
        Edit::Delete(from) => !is_ascii_word(from),
        Edit::Insert(to) => !is_ascii_word(to),
    }
}

/// The characters of the first text in the run of changes that ends with the edit at `index`.
pub open spec fn source_run(edits: Seq<Edit>, index: int) -> nat
    decreases index + 1,
{
    if index < 0 || index >= edits.len() || edits[index] is Match {
        0
    } else if edits[index] is Insert {
        source_run(edits, index - 1)
    } else {
        source_run(edits, index - 1) + 1
    }
}

/// The characters of the second text in the run of changes that ends with the edit at `index`.
pub open spec fn target_run(edits: Seq<Edit>, index: int) -> nat
    decreases index + 1,
{
    if index < 0 || index >= edits.len() || edits[index] is Match {
        0
    } else if edits[index] is Delete {
        target_run(edits, index - 1)
    } else {
        target_run(edits, index - 1) + 1
    }
}

/// Whether a run of changes starts at `index`.
pub open spec fn starts_region(edits: Seq<Edit>, index: int) -> bool {
    !(edits[index] is Match) && (index == 0 || edits[index - 1] is Match)
}

/// The number of runs of changes that start among the first `count` edits.
pub open spec fn regions(edits: Seq<Edit>, count: int) -> nat
    decreases count,
{
    if count <= 0 {
        0
    } else if starts_region(edits, count - 1) {
        regions(edits, count - 1) + 1
    } else {
        regions(edits, count - 1)
    }
}

/// Whether the changes leave ASCII letters and digits alone and fall into at least `minimum`
/// and at most `maximum` runs, each with at most `longest` characters of either text.
pub open spec fn has_bounded_regions(
    edits: Seq<Edit>,
    minimum: nat,
    maximum: nat,
    longest: nat,
) -> bool {
    &&& forall|i: int| 0 <= i < edits.len() ==> spares_ascii(#[trigger] edits[i])
    &&& forall|i: int|
        0 <= i < edits.len() ==> #[trigger] source_run(edits, i) <= longest && target_run(edits, i)
            <= longest
    &&& minimum <= regions(edits, edits.len() as int) <= maximum
}

proof fn regions_grow(edits: Seq<Edit>, low: int, high: int)
    requires
        low <= high,
    ensures
        regions(edits, low) <= regions(edits, high),
    decreases high - low,
{
    if low < high {
        regions_grow(edits, low, high - 1);
    }
}

pub fn bounded_regions(edits: &[Edit], minimum: usize, maximum: usize, longest: usize) -> (result:
    bool)
    requires
        maximum < usize::MAX,
        longest < usize::MAX,
    ensures
        result == has_bounded_regions(edits@, minimum as nat, maximum as nat, longest as nat),
{
    let mut found: usize = 0;
    let mut inside: bool = false;
    let mut source: usize = 0;
    let mut target: usize = 0;
    for index in 0..edits.len()
        invariant
            maximum < usize::MAX,
            longest < usize::MAX,
            found == regions(edits@, index as int),
            found <= maximum,
            inside == (index > 0 && !(edits@[index - 1] is Match)),
            source == source_run(edits@, index - 1),
            target == target_run(edits@, index - 1),
            source <= longest,
            target <= longest,
            forall|i: int| 0 <= i < index ==> spares_ascii(#[trigger] edits@[i]),
            forall|i: int|
                0 <= i < index ==> #[trigger] source_run(edits@, i) <= longest && target_run(
                    edits@,
                    i,
                ) <= longest,
    {
        proof {
            regions_grow(edits@, index + 1, edits@.len() as int);
        }
        let edit: Edit = edits[index];
        let spared: bool = match edit {
            Edit::Match => {
                source = 0;
                target = 0;
                true
            },
            Edit::Substitute(from, to) => {
                source += 1;
                target += 1;
                !ascii_word(from) && !ascii_word(to)
            },
            Edit::Delete(from) => {
                source += 1;
                !ascii_word(from)
            },
            Edit::Insert(to) => {
                target += 1;
                !ascii_word(to)
            },
        };
        assert(source == source_run(edits@, index as int));
        assert(target == target_run(edits@, index as int));
        let changed: bool = edit != Edit::Match;
        if changed && !inside {
            found += 1;
        }
        inside = changed;
        assert(found == regions(edits@, index + 1));
        assert(spared == spares_ascii(edits@[index as int]));
        if found > maximum || !spared || source > longest || target > longest {
            return false;
        }
    }
    minimum <= found
}

/// Where nothing changes there is no run of changes, a text that changes throughout has one, and a
/// match between two scripts parts their runs.
pub proof fn matches_part_the_runs(left: Seq<Edit>, right: Seq<Edit>)
    ensures
        (forall|i: int| 0 <= i < left.len() ==> (#[trigger] left[i]) is Match) ==> regions(
            left,
            left.len() as int,
        ) == 0,
        left.len() > 0 && (forall|i: int| 0 <= i < left.len() ==> !((#[trigger] left[i]) is Match))
            ==> regions(left, left.len() as int) == 1,
        regions(left + seq![Edit::Match] + right, (left.len() + 1 + right.len()) as int) == regions(
            left,
            left.len() as int,
        ) + regions(right, right.len() as int),
{
    if forall|i: int| 0 <= i < left.len() ==> (#[trigger] left[i]) is Match {
        matches_start_nothing(left, left.len() as int);
    }
    if left.len() > 0 && (forall|i: int| 0 <= i < left.len() ==> !((#[trigger] left[i]) is Match)) {
        one_run_starts_once(left, left.len() as int);
    }
    let all = left + seq![Edit::Match] + right;
    runs_of_a_start(left, all, left.len() as int);
    assert(all[left.len() as int] is Match);
    runs_behind_a_match(all, right, (left.len() + 1) as int, right.len() as int);
}

proof fn matches_start_nothing(edits: Seq<Edit>, count: int)
    requires
        0 <= count <= edits.len(),
        forall|i: int| 0 <= i < edits.len() ==> (#[trigger] edits[i]) is Match,
    ensures
        regions(edits, count) == 0,
    decreases count,
{
    if count > 0 {
        matches_start_nothing(edits, count - 1);
        assert(edits[count - 1] is Match);
    }
}

proof fn one_run_starts_once(edits: Seq<Edit>, count: int)
    requires
        0 < count <= edits.len(),
        forall|i: int| 0 <= i < edits.len() ==> !((#[trigger] edits[i]) is Match),
    ensures
        regions(edits, count) == 1,
    decreases count,
{
    assert(!(edits[count - 1] is Match));
    if count > 1 {
        one_run_starts_once(edits, count - 1);
        assert(!(edits[count - 2] is Match));
    } else {
        assert(regions(edits, 0) == 0);
    }
}

proof fn runs_of_a_start(start: Seq<Edit>, all: Seq<Edit>, count: int)
    requires
        0 <= count <= start.len() <= all.len(),
        forall|i: int| 0 <= i < start.len() ==> all[i] == #[trigger] start[i],
    ensures
        regions(all, count) == regions(start, count),
    decreases count,
{
    if count > 0 {
        runs_of_a_start(start, all, count - 1);
        assert(all[count - 1] == start[count - 1]);
        if count > 1 {
            assert(all[count - 2] == start[count - 2]);
        }
    }
}

proof fn runs_behind_a_match(all: Seq<Edit>, end: Seq<Edit>, offset: int, count: int)
    requires
        0 < offset,
        0 <= count <= end.len(),
        offset + end.len() <= all.len(),
        all[offset - 1] is Match,
        forall|i: int| 0 <= i < end.len() ==> all[offset + i] == #[trigger] end[i],
    ensures
        regions(all, offset + count) == regions(all, offset - 1) + regions(end, count),
    decreases count,
{
    if count > 0 {
        runs_behind_a_match(all, end, offset, count - 1);
        assert(all[offset + (count - 1)] == end[count - 1]);
        if count > 1 {
            assert(all[offset + (count - 2)] == end[count - 2]);
        }
    } else {
        assert(regions(all, offset) == regions(all, offset - 1));
    }
}

} // verus!
