//! Characters, columns, lines and numbers of text.

use vstd::prelude::*;
use vstd::string::*;
use vstd::utf8::*;

use crate::reading_back::{has_white_space, the_open_word_grows};

verus! {

/// The character sequences of a sequence of texts.
pub open spec fn texts(values: Seq<String>) -> Seq<Seq<char>> {
    Seq::new(values.len(), |i: int| values[i]@)
}

/// The characters of `text`, in order.
pub fn characters(text: &str) -> (result: Vec<char>)
    ensures
        result@ == text@,
{
    let mut result: Vec<char> = Vec::new();
    for character in iter: text.chars()
        invariant
            iter.seq() == text@,
            result@ == text@.take(iter.index() as int),
    {
        result.push(character);
    }
    assert(text@.take(text@.len() as int) =~= text@);
    result
}

/// The text that holds exactly these characters.
pub fn text_of(characters: &[char]) -> (result: String)
    ensures
        result@ == characters@,
{
    let mut result: String = String::new();
    for index in 0..characters.len()
        invariant
            result@ == characters@.take(index as int),
    {
        result.push(characters[index]);
    }
    assert(characters@.take(characters@.len() as int) =~= characters@);
    result
}

/// The text of the characters from `start` up to `end`.
pub fn text_between(characters: &[char], start: usize, end: usize) -> (result: String)
    requires
        start <= end <= characters@.len(),
    ensures
        result@ == characters@.subrange(start as int, end as int),
{
    let mut result: String = String::new();
    for index in start..end
        invariant
            start <= end <= characters@.len(),
            result@ == characters@.subrange(start as int, index as int),
    {
        result.push(characters[index]);
    }
    result
}

/// Whether two texts hold the same characters.
pub fn same_text(left: &str, right: &str) -> (result: bool)
    ensures
        result == (left@ == right@),
{
    let left: String = left.to_owned();
    let right: String = right.to_owned();
    left == right
}

/// `left` followed by `right`.
pub fn joined(left: &str, right: &str) -> (result: String)
    ensures
        result@ == left@ + right@,
{
    let mut result: String = left.to_owned();
    result.append(right);
    result
}

/// The number of characters of `text`.
pub fn character_count(text: &str) -> (result: usize)
    ensures
        result == text@.len(),
{
    characters(text).len()
}

/// The same texts.
pub fn copied_texts(values: &[String]) -> (result: Vec<String>)
    ensures
        texts(result@) == texts(values@),
{
    let mut result: Vec<String> = Vec::new();
    for index in 0..values.len()
        invariant
            result@.len() == index,
            forall|i: int| 0 <= i < index ==> #[trigger] texts(result@)[i] == texts(values@)[i],
    {
        let ghost before = texts(result@);
        result.push(values[index].clone());
        assert(texts(result@) =~= before.push(texts(values@)[index as int]));
    }
    assert(texts(result@) =~= texts(values@));
    result
}

/// Whether `text` is one of `values`.
pub fn holds_text(values: &[String], text: &str) -> (result: bool)
    ensures
        result == texts(values@).contains(text@),
{
    for index in 0..values.len()
        invariant
            forall|i: int| 0 <= i < index ==> values@[i]@ != text@,
    {
        if same_text(values[index].as_str(), text) {
            assert(texts(values@)[index as int] == text@);
            return true;
        }
    }
    false
}

// ---------------------------------------------------------------------------
// Characters
// ---------------------------------------------------------------------------

/// Whether the character has the Unicode property White_Space.
pub open spec fn is_white_space(character: char) -> bool {
    let code = character as u32;
    ||| 0x09 <= code <= 0x0D
    ||| code == 0x20
    ||| code == 0x85
    ||| code == 0xA0
    ||| code == 0x1680
    ||| 0x2000 <= code <= 0x200A
    ||| code == 0x2028
    ||| code == 0x2029
    ||| code == 0x202F
    ||| code == 0x205F
    ||| code == 0x3000
}

pub fn white_space(character: char) -> (result: bool)
    ensures
        result == is_white_space(character),
{
    let code: u32 = character as u32;
    (0x09 <= code && code <= 0x0D) || code == 0x20 || code == 0x85 || code == 0xA0 || code == 0x1680
        || (0x2000 <= code && code <= 0x200A) || code == 0x2028 || code == 0x2029 || code == 0x202F
        || code == 0x205F || code == 0x3000
}

/// Whether the character is a control character (the Unicode category Cc).
pub open spec fn is_control(character: char) -> bool {
    let code = character as u32;
    code <= 0x1F || 0x7F <= code <= 0x9F
}

pub fn control(character: char) -> (result: bool)
    ensures
        result == is_control(character),
{
    let code: u32 = character as u32;
    code <= 0x1F || (0x7F <= code && code <= 0x9F)
}

/// Whether some character of `text` is a control character.
pub open spec fn has_control(text: Seq<char>) -> bool {
    exists|i: int| 0 <= i < text.len() && is_control(#[trigger] text[i])
}

pub fn any_control(text: &str) -> (result: bool)
    ensures
        result == has_control(text@),
{
    let letters: Vec<char> = characters(text);
    for index in 0..letters.len()
        invariant
            letters@ == text@,
            forall|i: int| 0 <= i < index ==> !is_control(#[trigger] text@[i]),
    {
        if control(letters[index]) {
            assert(is_control(text@[index as int]));
            return true;
        }
    }
    false
}

/// Whether the character is an ASCII letter.
pub open spec fn is_ascii_letter(character: char) -> bool {
    'a' <= character <= 'z' || 'A' <= character <= 'Z'
}

pub fn ascii_letter(character: char) -> (result: bool)
    ensures
        result == is_ascii_letter(character),
{
    ('a' <= character && character <= 'z') || ('A' <= character && character <= 'Z')
}

/// Whether the character is an ASCII letter or an ASCII digit.
pub open spec fn is_ascii_word(character: char) -> bool {
    is_ascii_letter(character) || '0' <= character <= '9'
}

pub fn ascii_word(character: char) -> (result: bool)
    ensures
        result == is_ascii_word(character),
{
    ascii_letter(character) || ('0' <= character && character <= '9')
}

// ---------------------------------------------------------------------------
// Splitting
// ---------------------------------------------------------------------------

/// The columns of `text`: what stands before, between and after the delimiters.
pub open spec fn split_on(text: Seq<char>, delimiter: char) -> Seq<Seq<char>>
    decreases text.len(),
{
    if text.len() == 0 {
        seq![Seq::empty()]
    } else {
        let columns = split_on(text.drop_last(), delimiter);
        if text.last() == delimiter {
            columns.push(Seq::empty())
        } else {
            columns.drop_last().push(columns.last().push(text.last()))
        }
    }
}

/// The columns with the delimiter put back between them.
pub open spec fn join_with(columns: Seq<Seq<char>>, delimiter: char) -> Seq<char>
    decreases columns.len(),
{
    if columns.len() == 0 {
        Seq::empty()
    } else if columns.len() == 1 {
        columns[0]
    } else {
        join_with(columns.drop_last(), delimiter).push(delimiter) + columns.last()
    }
}

/// There is always one column, no column holds the delimiter, and putting the delimiters back
/// gives the text again.
pub proof fn columns_rebuild_the_text(text: Seq<char>, delimiter: char)
    ensures
        split_on(text, delimiter).len() >= 1,
        forall|i: int| 0 <= i < split_on(text, delimiter).len()
            ==> !(#[trigger] split_on(text, delimiter)[i]).contains(delimiter),
        join_with(split_on(text, delimiter), delimiter) == text,
    decreases text.len(),
{
    if text.len() > 0 {
        let shorter = text.drop_last();
        let before = split_on(shorter, delimiter);
        columns_rebuild_the_text(shorter, delimiter);
        let columns = split_on(text, delimiter);
        if text.last() == delimiter {
            assert(columns.drop_last() =~= before);
            assert(join_with(columns, delimiter) =~= shorter.push(delimiter));
            assert(shorter.push(delimiter) =~= text);
        } else {
            let last = before.last().push(text.last());
            assert(columns.last() =~= last);
            assert forall|i: int| 0 <= i < columns.len() implies !(
            #[trigger] columns[i]).contains(delimiter) by {
                if i == columns.len() - 1 {
                    assert forall|j: int| 0 <= j < last.len() implies last[j] != delimiter by {
                        if j < before.last().len() {
                            assert(before.last().contains(before.last()[j]));
                        }
                    }
                } else {
                    assert(columns[i] == before[i]);
                }
            }
            if columns.len() == 1 {
                assert(columns[0] =~= shorter.push(text.last()));
            } else {
                assert(columns.drop_last() =~= before.drop_last());
                assert(join_with(columns, delimiter) =~= shorter.push(text.last()));
            }
            assert(shorter.push(text.last()) =~= text);
        }
    } else {
        assert(split_on(text, delimiter)[0] =~= text);
    }
}

proof fn the_last_column_grows(text: Seq<char>, more: Seq<char>, delimiter: char)
    requires
        !more.contains(delimiter),
    ensures
        split_on(text, delimiter).len() >= 1,
        split_on(text + more, delimiter) == split_on(text, delimiter).drop_last().push(
            split_on(text, delimiter).last() + more,
        ),
    decreases more.len(),
{
    columns_rebuild_the_text(text, delimiter);
    let columns = split_on(text, delimiter);
    if more.len() == 0 {
        assert(text + more =~= text);
        assert(columns.last() + more =~= columns.last());
        assert(columns.drop_last().push(columns.last()) =~= columns);
    } else {
        let shorter = more.drop_last();
        assert forall|i: int| 0 <= i < shorter.len() implies shorter[i] != delimiter by {
            assert(more.contains(more[i]));
        }
        the_last_column_grows(text, shorter, delimiter);
        assert((text + more).drop_last() =~= text + shorter);
        assert(more.contains(more.last()));
        let before = columns.drop_last().push(columns.last() + shorter);
        assert(before.drop_last() =~= columns.drop_last());
        assert((columns.last() + shorter).push(more.last()) =~= columns.last() + more);
    }
}

/// Columns that are put together with delimiters between them are found again, if none of
/// them holds the delimiter.
pub proof fn joined_columns_split_again(columns: Seq<Seq<char>>, delimiter: char)
    requires
        columns.len() >= 1,
        forall|i: int| 0 <= i < columns.len() ==> !(#[trigger] columns[i]).contains(delimiter),
    ensures
        split_on(join_with(columns, delimiter), delimiter) == columns,
    decreases columns.len(),
{
    if columns.len() == 1 {
        let nothing = Seq::<char>::empty();
        the_last_column_grows(nothing, columns[0], delimiter);
        assert(nothing + columns[0] =~= columns[0]);
        assert(split_on(nothing, delimiter).drop_last().push(columns[0]) =~= columns);
    } else {
        let before = columns.drop_last();
        joined_columns_split_again(before, delimiter);
        let start = join_with(before, delimiter).push(delimiter);
        assert(start.drop_last() =~= join_with(before, delimiter));
        let nothing = Seq::<char>::empty();
        assert(split_on(start, delimiter) == before.push(nothing));
        the_last_column_grows(start, columns.last(), delimiter);
        assert(before.push(nothing).drop_last() =~= before);
        assert(nothing + columns.last() =~= columns.last());
        assert(before.push(columns.last()) =~= columns);
    }
}

/// The columns of `text`.
pub fn columns_of(text: &str, delimiter: char) -> (result: Vec<String>)
    ensures
        texts(result@) == split_on(text@, delimiter),
        result@.len() >= 1,
{
    let letters: Vec<char> = characters(text);
    let mut result: Vec<String> = Vec::new();
    let mut column: String = String::new();
    assert(texts(result@).push(column@) =~= split_on(text@.take(0), delimiter));
    for index in 0..letters.len()
        invariant
            letters@ == text@,
            texts(result@).push(column@) == split_on(text@.take(index as int), delimiter),
    {
        let ghost before = text@.take(index as int);
        let ghost after = text@.take(index + 1);
        let ghost columns = texts(result@).push(column@);
        assert(after.drop_last() =~= before);
        assert(after.last() == letters@[index as int]);
        assert(columns.drop_last() =~= texts(result@));
        if letters[index] == delimiter {
            let ghost previous = result@;
            result.push(column);
            column = String::new();
            assert(texts(result@) =~= columns);
            assert(texts(result@).push(column@) =~= split_on(after, delimiter));
        } else {
            column.push(letters[index]);
            assert(texts(result@).push(column@) =~= split_on(after, delimiter));
        }
    }
    assert(text@.take(text@.len() as int) =~= text@);
    let ghost columns = texts(result@).push(column@);
    result.push(column);
    assert(texts(result@) =~= columns);
    result
}

/// A terminated line without the carriage return that may stand before the line feed.
pub open spec fn without_carriage_return(line: Seq<char>) -> Seq<char> {
    if line.len() > 0 && line.last() == '\r' {
        line.drop_last()
    } else {
        line
    }
}

/// The lines of `text`. A line ends with a line feed or with a carriage return and a line
/// feed; the end of the last line may be missing.
pub open spec fn lines(text: Seq<char>) -> Seq<Seq<char>> {
    let pieces = split_on(text, '\n');
    let terminated = Seq::new(
        (pieces.len() - 1) as nat,
        |i: int| without_carriage_return(pieces[i]),
    );
    if pieces.last().len() == 0 {
        terminated
    } else {
        terminated.push(pieces.last())
    }
}

/// Some lines, each with a line feed behind it.
pub open spec fn terminated(rows: Seq<Seq<char>>) -> Seq<char>
    decreases rows.len(),
{
    if rows.len() == 0 {
        Seq::empty()
    } else {
        (terminated(rows.drop_last()) + rows.last()).push('\n')
    }
}

proof fn terminated_rows_split(rows: Seq<Seq<char>>)
    requires
        forall|i: int| 0 <= i < rows.len() ==> !(#[trigger] rows[i]).contains('\n'),
    ensures
        split_on(terminated(rows), '\n') == rows.push(Seq::empty()),
    decreases rows.len(),
{
    let nothing = Seq::<char>::empty();
    if rows.len() == 0 {
        assert(rows.push(nothing) =~= seq![nothing]);
    } else {
        let before = rows.drop_last();
        terminated_rows_split(before);
        the_last_column_grows(terminated(before), rows.last(), '\n');
        assert(before.push(nothing).drop_last() =~= before);
        assert(nothing + rows.last() =~= rows.last());
        assert(before.push(rows.last()) =~= rows);
        assert(terminated(rows).drop_last() =~= terminated(before) + rows.last());
    }
}

/// Lines that are written one after the other are found again, if none of them holds a line
/// feed or ends with a carriage return.
pub proof fn terminated_lines_read_back(rows: Seq<Seq<char>>)
    requires
        forall|i: int|
            0 <= i < rows.len() ==> !(#[trigger] rows[i]).contains('\n') && without_carriage_return(
                rows[i],
            ) == rows[i],
    ensures
        lines(terminated(rows)) == rows,
{
    terminated_rows_split(rows);
    assert(lines(terminated(rows)) =~= rows);
}

/// The lines of `text`.
pub fn lines_of(text: &str) -> (result: Vec<String>)
    ensures
        texts(result@) == lines(text@),
{
    let pieces: Vec<String> = columns_of(text, '\n');
    let ghost all = split_on(text@, '\n');
    let mut result: Vec<String> = Vec::new();
    let last: usize = pieces.len() - 1;
    for index in 0..last
        invariant
            texts(pieces@) == all,
            last == pieces@.len() - 1,
            texts(result@) == Seq::new(
                index as nat,
                |i: int| without_carriage_return(all[i]),
            ),
    {
        let letters: Vec<char> = characters(pieces[index].as_str());
        let count: usize = letters.len();
        assert(letters@ == all[index as int]);
        let ghost before = texts(result@);
        if count > 0 && letters[count - 1] == '\r' {
            let line: String = text_between(letters.as_slice(), 0, count - 1);
            assert(line@ =~= without_carriage_return(all[index as int]));
            result.push(line);
        } else {
            let line: String = text_of(letters.as_slice());
            result.push(line);
        }
        assert(texts(result@) =~= before.push(without_carriage_return(all[index as int])));
        assert(texts(result@) =~= Seq::new(
            (index + 1) as nat,
            |i: int| without_carriage_return(all[i]),
        ));
    }
    assert(all.last() == pieces@[last as int]@);
    if !pieces[last].as_str().is_empty() {
        let ghost before = texts(result@);
        let line: String = pieces[last].clone();
        result.push(line);
        assert(texts(result@) =~= before.push(all.last()));
    }
    assert(texts(result@) =~= lines(text@));
    result
}

/// The words that are complete before the end of `text`, and the word that the end cuts.
pub open spec fn scan_words(text: Seq<char>) -> (Seq<Seq<char>>, Seq<char>)
    decreases text.len(),
{
    if text.len() == 0 {
        (Seq::empty(), Seq::empty())
    } else {
        let (complete, open) = scan_words(text.drop_last());
        if !is_white_space(text.last()) {
            (complete, open.push(text.last()))
        } else if open.len() == 0 {
            (complete, open)
        } else {
            (complete.push(open), Seq::empty())
        }
    }
}

/// The words of `text`: its longest runs of characters that are no white space.
pub open spec fn words(text: Seq<char>) -> Seq<Seq<char>> {
    let (complete, open) = scan_words(text);
    if open.len() == 0 {
        complete
    } else {
        complete.push(open)
    }
}

/// The words of `text`.
pub fn words_of(text: &str) -> (result: Vec<String>)
    ensures
        texts(result@) == words(text@),
{
    let letters: Vec<char> = characters(text);
    let mut result: Vec<String> = Vec::new();
    let mut open: String = String::new();
    assert(texts(result@) =~= scan_words(text@.take(0)).0);
    for index in 0..letters.len()
        invariant
            letters@ == text@,
            (texts(result@), open@) == scan_words(text@.take(index as int)),
    {
        let ghost before = text@.take(index as int);
        let ghost after = text@.take(index + 1);
        assert(after.drop_last() =~= before);
        assert(after.last() == letters@[index as int]);
        let ghost complete = texts(result@);
        if !white_space(letters[index]) {
            open.push(letters[index]);
        } else if !open.as_str().is_empty() {
            let ghost word = open@;
            result.push(open);
            open = String::new();
            assert(texts(result@) =~= complete.push(word));
        }
    }
    assert(text@.take(text@.len() as int) =~= text@);
    if !open.as_str().is_empty() {
        let ghost complete = texts(result@);
        let ghost word = open@;
        result.push(open);
        assert(texts(result@) =~= complete.push(word));
    }
    result
}

/// `text` without the white space at its start.
pub open spec fn trim_start(text: Seq<char>) -> Seq<char>
    decreases text.len(),
{
    if text.len() > 0 && is_white_space(text[0]) {
        trim_start(text.drop_first())
    } else {
        text
    }
}

/// `text` without the white space at its end.
pub open spec fn trim_end(text: Seq<char>) -> Seq<char>
    decreases text.len(),
{
    if text.len() > 0 && is_white_space(text.last()) {
        trim_end(text.drop_last())
    } else {
        text
    }
}

/// `text` without the white space at its start and at its end.
pub open spec fn trim(text: Seq<char>) -> Seq<char> {
    trim_end(trim_start(text))
}

/// `text` without the white space at its start and at its end.
pub fn trimmed(text: &str) -> (result: String)
    ensures
        result@ == trim(text@),
{
    let letters: Vec<char> = characters(text);
    let mut start: usize = 0;
    assert(text@.skip(0) =~= text@);
    while start < letters.len() && white_space(letters[start])
        invariant
            letters@ == text@,
            start <= text@.len(),
            trim_start(text@.skip(start as int)) == trim_start(text@),
        decreases text@.len() - start,
    {
        assert(text@.skip(start as int).drop_first() =~= text@.skip(start + 1));
        start += 1;
    }
    let ghost rest = text@.skip(start as int);
    assert(trim_start(text@) == rest);
    let mut end: usize = letters.len();
    assert(rest.take(rest.len() as int) =~= rest);
    while start < end && white_space(letters[end - 1])
        invariant
            letters@ == text@,
            rest == text@.skip(start as int),
            start <= end <= text@.len(),
            trim_end(rest.take(end - start)) == trim_end(rest),
        decreases end,
    {
        assert(rest.take(end - start).drop_last() =~= rest.take(end - start - 1));
        assert(rest.take(end - start).last() == letters@[end - 1]);
        end -= 1;
    }
    if start < end {
        assert(rest.take(end - start).last() == letters@[end - 1]);
    }
    assert(trim_end(rest) == rest.take(end - start));
    assert(rest.take(end - start) =~= text@.subrange(start as int, end as int));
    text_between(letters.as_slice(), start, end)
}

/// What stands before and after the first delimiter.
pub open spec fn split_first(text: Seq<char>, delimiter: char) -> Option<(Seq<char>, Seq<char>)> {
    if text.contains(delimiter) {
        let at = text.index_of_first(delimiter)->0;
        Some((text.take(at), text.skip(at + 1)))
    } else {
        None
    }
}

/// What stands before and after the last delimiter.
pub open spec fn split_last(text: Seq<char>, delimiter: char) -> Option<(Seq<char>, Seq<char>)> {
    if text.contains(delimiter) {
        let at = text.index_of_last(delimiter)->0;
        Some((text.take(at), text.skip(at + 1)))
    } else {
        None
    }
}

/// What stands before and after the first delimiter.
pub fn split_at_first(text: &str, delimiter: char) -> (result: Option<(String, String)>)
    ensures
        result is Some <==> split_first(text@, delimiter) is Some,
        result matches Some(parts) ==> split_first(text@, delimiter) == Some((parts.0@, parts.1@)),
{
    let letters: Vec<char> = characters(text);
    for index in 0..letters.len()
        invariant
            letters@ == text@,
            forall|i: int| 0 <= i < index ==> text@[i] != delimiter,
    {
        if letters[index] == delimiter {
            proof {
                text@.index_of_first_ensures(delimiter);
            }
            assert(text@.index_of_first(delimiter) == Some(index as int));
            let before: String = text_between(letters.as_slice(), 0, index);
            let after: String = text_between(letters.as_slice(), index + 1, letters.len());
            assert(before@ =~= text@.take(index as int));
            assert(after@ =~= text@.skip(index + 1));
            return Some((before, after));
        }
    }
    None
}

/// What stands before and after the last delimiter.
pub fn split_at_last(text: &str, delimiter: char) -> (result: Option<(String, String)>)
    ensures
        result is Some <==> split_last(text@, delimiter) is Some,
        result matches Some(parts) ==> split_last(text@, delimiter) == Some((parts.0@, parts.1@)),
{
    let letters: Vec<char> = characters(text);
    let mut index: usize = letters.len();
    while index > 0
        invariant
            letters@ == text@,
            index <= text@.len(),
            forall|i: int| index <= i < text@.len() ==> text@[i] != delimiter,
        decreases index,
    {
        index -= 1;
        if letters[index] == delimiter {
            proof {
                text@.index_of_last_ensures(delimiter);
            }
            assert(text@.index_of_last(delimiter) == Some(index as int));
            let before: String = text_between(letters.as_slice(), 0, index);
            let after: String = text_between(letters.as_slice(), index + 1, letters.len());
            assert(before@ =~= text@.take(index as int));
            assert(after@ =~= text@.skip(index + 1));
            return Some((before, after));
        }
    }
    None
}

/// Whether `text` holds the character.
pub fn holds_character(text: &str, character: char) -> (result: bool)
    ensures
        result == text@.contains(character),
{
    let letters: Vec<char> = characters(text);
    for index in 0..letters.len()
        invariant
            letters@ == text@,
            forall|i: int| 0 <= i < index ==> text@[i] != character,
    {
        if letters[index] == character {
            assert(text@[index as int] == character);
            return true;
        }
    }
    false
}

/// Whether `text` starts with `prefix`.
pub fn begins_with(text: &str, prefix: &str) -> (result: bool)
    ensures
        result == prefix@.is_prefix_of(text@),
{
    let letters: Vec<char> = characters(text);
    let expected: Vec<char> = characters(prefix);
    if letters.len() < expected.len() {
        return false;
    }
    for index in 0..expected.len()
        invariant
            letters@ == text@,
            expected@ == prefix@,
            expected@.len() <= letters@.len(),
            forall|i: int| 0 <= i < index ==> text@[i] == prefix@[i],
    {
        if letters[index] != expected[index] {
            assert(text@.subrange(0, prefix@.len() as int)[index as int] != prefix@[index as int]);
            return false;
        }
    }
    assert(text@.subrange(0, prefix@.len() as int) =~= prefix@);
    true
}

/// What follows `prefix` in `text`, if `text` starts with it.
pub fn after_prefix(text: &str, prefix: &str) -> (result: Option<String>)
    ensures
        result is Some <==> prefix@.is_prefix_of(text@),
        result matches Some(rest) ==> rest@ == text@.skip(prefix@.len() as int),
{
    if !begins_with(text, prefix) {
        return None;
    }
    let letters: Vec<char> = characters(text);
    let start: usize = character_count(prefix);
    let rest: String = text_between(letters.as_slice(), start, letters.len());
    assert(rest@ =~= text@.skip(prefix@.len() as int));
    Some(rest)
}

/// Whether `part` occurs somewhere in `text`.
pub open spec fn occurs_in(part: Seq<char>, text: Seq<char>) -> bool {
    exists|i: int|
        0 <= i && i + part.len() <= text.len() && #[trigger] text.subrange(i, i + part.len())
            == part
}

/// Whether `part` occurs somewhere in `text`.
pub fn holds_part(text: &str, part: &str) -> (result: bool)
    ensures
        result == occurs_in(part@, text@),
{
    let letters: Vec<char> = characters(text);
    let length: usize = character_count(part);
    let total: usize = letters.len();
    if length > total {
        return false;
    }
    let last: usize = total - length;
    let mut start: usize = 0;
    while start <= last
        invariant
            letters@ == text@,
            length == part@.len(),
            total == text@.len(),
            last == total - length,
            forall|i: int|
                0 <= i < start && i <= last ==> #[trigger] text@.subrange(i, i + part@.len())
                    != part@,
        decreases last + 1 - start,
    {
        let found: String = text_between(letters.as_slice(), start, start + length);
        if same_text(found.as_str(), part) {
            assert(text@.subrange(start as int, start + part@.len()) == part@);
            return true;
        }
        if start == last {
            return false;
        }
        start += 1;
    }
    false
}

// ---------------------------------------------------------------------------
// Numbers
// ---------------------------------------------------------------------------

/// The digit of a number below ten.
pub open spec fn digit(value: nat) -> char {
    (48 + value) as u8 as char
}

/// The decimal digits of a number, without leading zeros.
pub open spec fn decimal(value: nat) -> Seq<char>
    decreases value,
{
    if value < 10 {
        seq![digit(value)]
    } else {
        decimal(value / 10).push(digit(value % 10))
    }
}

/// The decimal digits of an integer, behind a minus sign if it is negative.
pub open spec fn signed_decimal(value: int) -> Seq<char> {
    if value < 0 {
        seq!['-'] + decimal((-value) as nat)
    } else {
        decimal(value as nat)
    }
}

pub fn decimal_text(value: u64) -> (result: String)
    ensures
        result@ == decimal(value as nat),
    decreases value,
{
    if value < 10 {
        let mut result: String = String::new();
        result.push((48 + value) as u8 as char);
        assert(result@ =~= decimal(value as nat));
        result
    } else {
        let mut result: String = decimal_text(value / 10);
        result.push((48 + value % 10) as u8 as char);
        result
    }
}

/// The decimal digits of a count.
pub fn count_text(value: usize) -> (result: String)
    ensures
        result@ == decimal(value as nat),
{
    decimal_text(value as u64)
}

pub fn signed_decimal_text(value: i64) -> (result: String)
    ensures
        result@ == signed_decimal(value as int),
{
    if value < 0 {
        let mut result: String = String::new();
        result.push('-');
        let magnitude: u64 = if value == i64::MIN {
            0x8000_0000_0000_0000
        } else {
            (-value) as u64
        };
        let digits: String = decimal_text(magnitude);
        result.append(digits.as_str());
        assert(result@ =~= signed_decimal(value as int));
        result
    } else {
        decimal_text(value as u64)
    }
}

/// Whether the text is made of ASCII digits and is not empty.
pub open spec fn is_digits(text: Seq<char>) -> bool {
    text.len() > 0 && forall|i: int| 0 <= i < text.len() ==> '0' <= #[trigger] text[i] <= '9'
}

/// The number that the digits stand for.
pub open spec fn digits_value(text: Seq<char>) -> nat
    decreases text.len(),
{
    if text.len() == 0 {
        0
    } else {
        10 * digits_value(text.drop_last()) + (text.last() as u32 - 48) as nat
    }
}

/// The number that a text without sign, or behind a plus sign, stands for.
pub open spec fn unsigned_value(text: Seq<char>) -> Option<nat> {
    let digits = if text.len() > 0 && text[0] == '+' {
        text.skip(1)
    } else {
        text
    };
    if is_digits(digits) {
        Some(digits_value(digits))
    } else {
        None
    }
}

/// The number that a text stands for, where a minus sign may stand before it.
pub open spec fn signed_value(text: Seq<char>) -> Option<int> {
    if text.len() > 0 && text[0] == '-' {
        if is_digits(text.skip(1)) {
            Some(-digits_value(text.skip(1)))
        } else {
            None
        }
    } else {
        match unsigned_value(text) {
            Some(value) => Some(value as int),
            None => None,
        }
    }
}

/// Writing a number down and reading it gives the number again.
pub proof fn decimal_reads_back(value: nat)
    ensures
        is_digits(decimal(value)),
        digits_value(decimal(value)) == value,
        unsigned_value(decimal(value)) == Some(value),
        signed_value(decimal(value)) == Some(value as int),
    decreases value,
{
    if value >= 10 {
        decimal_reads_back(value / 10);
        assert(decimal(value).drop_last() =~= decimal(value / 10));
        assert(decimal(value)[0] == decimal(value / 10)[0]);
    } else {
        assert(decimal(value).drop_last() =~= Seq::<char>::empty());
        assert(digits_value(Seq::<char>::empty()) == 0);
    }
}

/// Two numbers with the same digits are the same number.
pub proof fn decimal_is_injective(left: nat, right: nat)
    requires
        decimal(left) == decimal(right),
    ensures
        left == right,
{
    decimal_reads_back(left);
    decimal_reads_back(right);
}

proof fn digits_value_grows(text: Seq<char>, count: int)
    requires
        0 <= count <= text.len(),
    ensures
        digits_value(text.take(count)) <= digits_value(text),
    decreases text.len() - count,
{
    if count < text.len() {
        digits_value_grows(text, count + 1);
        assert(text.take(count + 1).drop_last() =~= text.take(count));
    } else {
        assert(text.take(count) =~= text);
    }
}

/// Reads the digits from `start` on. `None` if there are none, if another character stands
/// among them, or if the number is greater than `maximum`.
fn read_digits(letters: &[char], start: usize, maximum: u64) -> (result: Option<u64>)
    requires
        start <= letters@.len(),
    ensures
        result is Some <==> is_digits(letters@.skip(start as int)) && digits_value(
            letters@.skip(start as int),
        ) <= maximum,
        result matches Some(value) ==> value == digits_value(letters@.skip(start as int)),
{
    let ghost digits = letters@.skip(start as int);
    if start == letters.len() {
        return None;
    }
    let mut value: u64 = 0;
    assert(digits_value(digits.take(0)) == 0);
    for index in start..letters.len()
        invariant
            start < letters@.len(),
            digits == letters@.skip(start as int),
            forall|i: int| 0 <= i < index - start ==> '0' <= #[trigger] digits[i] <= '9',
            value == digits_value(digits.take(index - start)),
            value <= maximum,
    {
        let character: char = letters[index];
        assert(digits[index - start] == character);
        if character < '0' || '9' < character {
            return None;
        }
        let step: u64 = character as u64 - 48;
        proof {
            let longer = digits.take(index - start + 1);
            assert(longer.drop_last() =~= digits.take(index - start));
            assert(digits_value(longer) == 10 * value + step);
            digits_value_grows(digits, index - start + 1);
        }
        if step > maximum || value > (maximum - step) / 10 {
            assert(10 * value + step > maximum);
            return None;
        }
        value = 10 * value + step;
    }
    assert(digits.take(digits.len() as int) =~= digits);
    Some(value)
}

/// The number at most `maximum` that `text` stands for.
pub fn read_unsigned(text: &str, maximum: u64) -> (result: Option<u64>)
    ensures
        result is Some <==> (unsigned_value(text@) is Some && unsigned_value(text@)->0 <= maximum),
        result matches Some(value) ==> unsigned_value(text@) == Some(value as nat),
{
    let letters: Vec<char> = characters(text);
    if letters.len() > 0 && letters[0] == '+' {
        read_digits(letters.as_slice(), 1, maximum)
    } else {
        assert(text@.skip(0) =~= text@);
        read_digits(letters.as_slice(), 0, maximum)
    }
}

/// The count that `text` stands for.
pub fn read_count(text: &str) -> (result: Option<usize>)
    ensures
        result is Some <==> (unsigned_value(text@) is Some && unsigned_value(text@)->0
            <= usize::MAX),
        result matches Some(value) ==> unsigned_value(text@) == Some(value as nat),
{
    match read_unsigned(text, usize::MAX as u64) {
        Some(value) => Some(value as usize),
        None => None,
    }
}

/// The 32-bit integer that `text` stands for.
pub fn read_i32(text: &str) -> (result: Option<i32>)
    ensures
        result is Some <==> (signed_value(text@) is Some && i32::MIN <= signed_value(text@)->0
            <= i32::MAX),
        result matches Some(value) ==> signed_value(text@) == Some(value as int),
{
    let letters: Vec<char> = characters(text);
    if letters.len() > 0 && letters[0] == '-' {
        match read_digits(letters.as_slice(), 1, 0x8000_0000) {
            Some(magnitude) => Some((-(magnitude as i64)) as i32),
            None => None,
        }
    } else {
        match read_unsigned(text, 0x7FFF_FFFF) {
            Some(value) => Some(value as i32),
            None => None,
        }
    }
}

// ---------------------------------------------------------------------------
// What splitting and reading mean
// ---------------------------------------------------------------------------

/// Some words with a space between each two.
pub open spec fn spaced(found: Seq<Seq<char>>) -> Seq<char>
    decreases found.len(),
{
    if found.len() == 0 {
        Seq::empty()
    } else if found.len() == 1 {
        found[0]
    } else {
        spaced(found.drop_last()).push(' ') + found.last()
    }
}

/// Words with a space between each two are found again, if each holds something and no white space.
pub proof fn spaced_words_are_found(found: Seq<Seq<char>>)
    requires
        forall|i: int|
            0 <= i < found.len() ==> (#[trigger] found[i]).len() > 0 && !has_white_space(found[i]),
    ensures
        words(spaced(found)) == found,
{
    if found.len() > 0 {
        the_last_word_is_open(found);
        assert(found.drop_last().push(found.last()) =~= found);
        assert(found[found.len() - 1].len() > 0);
    } else {
        assert(words(spaced(found)) =~= found);
    }
}

proof fn the_last_word_is_open(found: Seq<Seq<char>>)
    requires
        found.len() > 0,
        forall|i: int|
            0 <= i < found.len() ==> (#[trigger] found[i]).len() > 0 && !has_white_space(found[i]),
    ensures
        scan_words(spaced(found)) == (found.drop_last(), found.last()),
    decreases found.len(),
{
    let nothing = Seq::<char>::empty();
    let last = found.last();
    assert(found[found.len() - 1].len() > 0 && !has_white_space(found[found.len() - 1]));
    if found.len() == 1 {
        the_open_word_grows(nothing, last);
        assert(nothing + last =~= last);
        assert(found.drop_last() =~= Seq::<Seq<char>>::empty());
    } else {
        let before = found.drop_last();
        assert forall|i: int| 0 <= i < before.len() implies (#[trigger] before[i]).len() > 0
            && !has_white_space(before[i]) by {
            assert(before[i] == found[i]);
        }
        the_last_word_is_open(before);
        assert(before[before.len() - 1].len() > 0);
        let separated = spaced(before).push(' ');
        assert(separated.drop_last() =~= spaced(before));
        assert(before.drop_last().push(before.last()) =~= before);
        assert(scan_words(separated) == (before, nothing));
        the_open_word_grows(separated, last);
        assert(nothing + last =~= last);
    }
}

/// Further white space changes nothing: neither before or behind the text nor beside other white
/// space are there any words.
pub proof fn white_space_holds_no_words(text: Seq<char>, space: char)
    requires
        is_white_space(space),
    ensures
        words(text.push(space)) == words(text),
        words(text.push(space).push(space)) == words(text),
{
    let once = text.push(space);
    let twice = once.push(space);
    assert(once.drop_last() =~= text);
    assert(twice.drop_last() =~= once);
    assert(words(once) =~= words(text));
    assert(words(twice) =~= words(text));
}

/// Trimming takes the white space from both ends and nothing else.
pub proof fn trimming_keeps_what_stands_between(
    before: Seq<char>,
    text: Seq<char>,
    behind: Seq<char>,
)
    requires
        forall|i: int| 0 <= i < before.len() ==> is_white_space(#[trigger] before[i]),
        forall|i: int| 0 <= i < behind.len() ==> is_white_space(#[trigger] behind[i]),
        text.len() > 0 ==> !is_white_space(text[0]) && !is_white_space(text.last()),
    ensures
        trim(before + text + behind) == text,
{
    start_is_trimmed(before, text + behind);
    assert(before + (text + behind) =~= before + text + behind);
    if text.len() > 0 {
        assert((text + behind)[0] == text[0]);
        end_is_trimmed(text, behind);
    } else {
        assert(text + behind =~= behind);
        start_is_trimmed(behind, text);
        assert(behind + text =~= behind);
        assert(text =~= Seq::<char>::empty());
    }
}

proof fn start_is_trimmed(before: Seq<char>, text: Seq<char>)
    requires
        forall|i: int| 0 <= i < before.len() ==> is_white_space(#[trigger] before[i]),
    ensures
        trim_start(before + text) == trim_start(text),
    decreases before.len(),
{
    if before.len() == 0 {
        assert(before + text =~= text);
    } else {
        let rest = before.drop_first();
        assert forall|i: int| 0 <= i < rest.len() implies is_white_space(#[trigger] rest[i]) by {
            assert(rest[i] == before[i + 1]);
        }
        start_is_trimmed(rest, text);
        assert(is_white_space(before[0]));
        assert((before + text).drop_first() =~= rest + text);
    }
}

proof fn end_is_trimmed(text: Seq<char>, behind: Seq<char>)
    requires
        text.len() > 0,
        !is_white_space(text.last()),
        forall|i: int| 0 <= i < behind.len() ==> is_white_space(#[trigger] behind[i]),
    ensures
        trim_end(text + behind) == text,
    decreases behind.len(),
{
    if behind.len() == 0 {
        assert(text + behind =~= text);
    } else {
        let rest = behind.drop_last();
        assert forall|i: int| 0 <= i < rest.len() implies is_white_space(#[trigger] rest[i]) by {
            assert(rest[i] == behind[i]);
        }
        end_is_trimmed(text, rest);
        assert(is_white_space(behind[behind.len() - 1]));
        assert((text + behind).drop_last() =~= text + rest);
    }
}

/// White space is the space, the tab, the other controls up to the carriage return, and the further
/// spaces and line ends of Unicode.
pub proof fn white_space_is_that_of_unicode(character: char)
    ensures
        is_white_space(character) <==> {
            ||| character == ' ' || '\t' <= character <= '\r' || character == '\u{85}'
            ||| character == '\u{A0}' || character == '\u{1680}'
            ||| '\u{2000}' <= character <= '\u{200A}'
            ||| character == '\u{2028}' || character == '\u{2029}' || character == '\u{202F}'
            ||| character == '\u{205F}' || character == '\u{3000}'
        },
        is_control(character) <==> character <= '\u{1F}' || '\u{7F}' <= character <= '\u{9F}',
        is_ascii_word(character) <==> '0' <= character <= '9' || 'a' <= character <= 'z' || 'A'
            <= character <= 'Z',
{
}

/// A line may end with a carriage return before its line feed, which is no part of it; and the last
/// line counts without an end of its own.
pub proof fn lines_end_in_either_way(rows: Seq<Seq<char>>, row: Seq<char>)
    requires
        forall|i: int|
            0 <= i < rows.len() ==> !(#[trigger] rows[i]).contains('\n') && (rows[i].len() == 0
                || rows[i].last() != '\r'),
        !row.contains('\n'),
    ensures
        lines(terminated(rows) + row + seq!['\r', '\n']) == rows.push(row),
        row.len() > 0 ==> lines(terminated(rows) + row) == rows.push(row),
        row.len() == 0 ==> lines(terminated(rows) + row) == rows,
{
    terminated_rows_split(rows);
    let start = terminated(rows);
    let nothing = Seq::<char>::empty();
    the_last_column_grows(start, row, '\n');
    assert(rows.push(nothing).drop_last() =~= rows);
    assert(nothing + row =~= row);
    assert(split_on(start + row, '\n') == rows.push(row));
    if row.len() > 0 {
        assert(lines(start + row) =~= rows.push(row));
    } else {
        assert(start + row =~= start);
        assert(lines(start) =~= rows);
    }
    let ended = row.push('\r');
    assert forall|i: int| 0 <= i < ended.len() implies ended[i] != '\n' by {
        if i < row.len() {
            assert(row.contains(row[i]));
        }
    }
    the_last_column_grows(start, ended, '\n');
    assert(nothing + ended =~= ended);
    let whole = (start + ended).push('\n');
    assert(whole.drop_last() =~= start + ended);
    assert(split_on(whole, '\n') == rows.push(ended).push(nothing));
    assert(start + row + seq!['\r', '\n'] =~= whole);
    assert(ended.drop_last() =~= row);
    assert(lines(whole) =~= rows.push(row));
}

/// A text is split at the first or at the last delimiter: the parts make it up again, and the part on
/// the other side holds no delimiter.
pub proof fn splits_part_the_text(text: Seq<char>, delimiter: char)
    ensures
        split_first(text, delimiter) matches Some(parts) ==> parts.0 + seq![delimiter] + parts.1 == text
            && !parts.0.contains(delimiter),
        split_last(text, delimiter) matches Some(parts) ==> parts.0 + seq![delimiter] + parts.1 == text
            && !parts.1.contains(delimiter),
        split_first(text, delimiter) is None <==> !text.contains(delimiter),
        split_last(text, delimiter) is None <==> !text.contains(delimiter),
{
    if text.contains(delimiter) {
        text.index_of_first_ensures(delimiter);
        text.index_of_last_ensures(delimiter);
        let first = text.index_of_first(delimiter)->0;
        let last = text.index_of_last(delimiter)->0;
        assert(text.take(first) + seq![delimiter] + text.skip(first + 1) =~= text);
        assert(text.take(last) + seq![delimiter] + text.skip(last + 1) =~= text);
        let behind = text.skip(last + 1);
        assert forall|i: int| 0 <= i < behind.len() implies #[trigger] behind[i] != delimiter by {
            assert(text[last + 1 + i] != delimiter);
        }
    }
}

/// A minus sign makes a number negative, a plus sign changes nothing, and nothing but digits is read.
pub proof fn signs_stand_before_the_digits(value: nat, text: Seq<char>)
    ensures
        signed_value(seq!['-'] + decimal(value)) == Some(-(value as int)),
        unsigned_value(seq!['+'] + decimal(value)) == Some(value),
        unsigned_value(seq!['-'] + text) is None,
        signed_decimal(value as int) == decimal(value),
        value > 0 ==> signed_decimal(-(value as int)) == seq!['-'] + decimal(value),
        text.len() == 0 ==> unsigned_value(text) is None && signed_value(text) is None,
        (exists|i: int| 0 < i < text.len() && !('0' <= #[trigger] text[i] <= '9')) ==> unsigned_value(
            text,
        ) is None && signed_value(text) is None,
{
    decimal_reads_back(value);
    let minus = seq!['-'] + decimal(value);
    let plus = seq!['+'] + decimal(value);
    assert(minus.skip(1) =~= decimal(value));
    assert(plus.skip(1) =~= decimal(value));
    let refused = seq!['-'] + text;
    assert(refused[0] == '-');
    if exists|i: int| 0 < i < text.len() && !('0' <= #[trigger] text[i] <= '9') {
        let i = choose|i: int| 0 < i < text.len() && !('0' <= #[trigger] text[i] <= '9');
        assert(text.skip(1)[i - 1] == text[i]);
    }
}

} // verus!
