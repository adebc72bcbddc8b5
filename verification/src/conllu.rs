//! Treebanks in CoNLL-U with pronunciations of UniDic.

use crate::text::{
    after_prefix, begins_with, columns_of, holds_character, holds_text, lines, lines_of, same_text,
    split_on, texts,
};
use vstd::prelude::*;
use vstd::string::*;

verus! {

/// A token of a treebank.
#[derive(Debug, PartialEq, Eq)]
pub struct TreebankToken {
    pub id: String,
    pub surface: String,
    pub upos: String,
    pub pronunciation: String,
    pub space_after: bool,
}

/// A sentence of a treebank.
#[derive(Debug, PartialEq, Eq)]
pub struct Sentence {
    pub id: String,
    pub text: String,
    pub tokens: Vec<TreebankToken>,
}

/// A token as a mathematical value.
pub ghost struct TreebankTokenView {
    pub id: Seq<char>,
    pub surface: Seq<char>,
    pub upos: Seq<char>,
    pub pronunciation: Seq<char>,
    pub space_after: bool,
}

/// A sentence as a mathematical value.
pub ghost struct SentenceView {
    pub id: Seq<char>,
    pub text: Seq<char>,
    pub tokens: Seq<TreebankTokenView>,
}

impl View for TreebankToken {
    type V = TreebankTokenView;

    open spec fn view(&self) -> TreebankTokenView {
        TreebankTokenView {
            id: self.id@,
            surface: self.surface@,
            upos: self.upos@,
            pronunciation: self.pronunciation@,
            space_after: self.space_after,
        }
    }
}

/// The values of some tokens.
pub open spec fn treebank_tokens(tokens: Seq<TreebankToken>) -> Seq<TreebankTokenView> {
    Seq::new(tokens.len(), |i: int| tokens[i]@)
}

impl View for Sentence {
    type V = SentenceView;

    open spec fn view(&self) -> SentenceView {
        SentenceView { id: self.id@, text: self.text@, tokens: treebank_tokens(self.tokens@) }
    }
}

/// The values of some sentences.
pub open spec fn sentence_views(sentences: Seq<Sentence>) -> Seq<SentenceView> {
    Seq::new(sentences.len(), |i: int| sentences[i]@)
}

// ---------------------------------------------------------------------------
// Tokens
// ---------------------------------------------------------------------------

/// What follows the prefix in the first field from `index` on that starts with it.
pub open spec fn first_after_prefix(fields: Seq<Seq<char>>, prefix: Seq<char>, index: int) -> Option<
    Seq<char>,
>
    decreases fields.len() - index,
{
    if index < 0 || index >= fields.len() {
        None
    } else if prefix.is_prefix_of(fields[index]) {
        Some(fields[index].skip(prefix.len() as int))
    } else {
        first_after_prefix(fields, prefix, index + 1)
    }
}

/// The pronunciation among the miscellaneous fields: the fifth value of the UniDic field, if it
/// is there and not empty.
pub open spec fn pronunciation_in(misc: Seq<char>) -> Option<Seq<char>> {
    match first_after_prefix(split_on(misc, '|'), "UnidicInfo="@, 0) {
        None => None,
        Some(values) => {
            let columns = split_on(values, ',');
            if columns.len() < 5 || columns[4].len() == 0 {
                None
            } else {
                Some(columns[4])
            }
        },
    }
}

/// The pronunciation among the miscellaneous fields of a token.
pub fn unidic_pronunciation(misc: &str) -> (result: Option<String>)
    ensures
        result is Some <==> pronunciation_in(misc@) is Some,
        result matches Some(text) ==> pronunciation_in(misc@) == Some(text@),
{
    let fields: Vec<String> = columns_of(misc, '|');
    let ghost all = split_on(misc@, '|');
    assert(all == texts(fields@));
    assert(all.len() == fields@.len());
    for index in 0..fields.len()
        invariant
            all == texts(fields@),
            all == split_on(misc@, '|'),
            all.len() == fields@.len(),
            first_after_prefix(all, "UnidicInfo="@, 0) == first_after_prefix(
                all,
                "UnidicInfo="@,
                index as int,
            ),
    {
        assert(all[index as int] == fields@[index as int]@);
        if let Some(values) = after_prefix(fields[index].as_str(), "UnidicInfo=") {
            let columns: Vec<String> = columns_of(values.as_str(), ',');
            assert(texts(columns@) == split_on(values@, ','));
            assert(texts(columns@).len() == columns@.len());
            if columns.len() < 5 {
                return None;
            }
            assert(split_on(values@, ',')[4] == columns@[4]@);
            if columns[4].as_str().is_empty() {
                return None;
            }
            return Some(columns[4].clone());
        }
    }
    None
}

/// Punctuation and symbols, which are pronounced as they are written.
pub open spec fn is_mark(upos: Seq<char>) -> bool {
    upos == "PUNCT"@ || upos == "SYM"@
}

pub fn is_phrase_boundary(upos: &str) -> (result: bool)
    ensures
        result == is_mark(upos@),
{
    same_text(upos, "PUNCT") || same_text(upos, "SYM")
}

/// The token of a line; `None` if it is not one line of ten columns for one word with a
/// pronunciation.
pub open spec fn token_in(line: Seq<char>) -> Option<TreebankTokenView> {
    let columns = split_on(line, '\t');
    if columns.len() != 10 || columns[0].contains('-') || columns[0].contains('.') {
        None
    } else {
        let token = |pronunciation: Seq<char>|
            TreebankTokenView {
                id: columns[0],
                surface: columns[1],
                upos: columns[3],
                pronunciation,
                space_after: !split_on(columns[9], '|').contains("SpaceAfter=No"@),
            };
        match pronunciation_in(columns[9]) {
            Some(pronunciation) => Some(token(pronunciation)),
            None => if is_mark(columns[3]) {
                Some(token(columns[1]))
            } else {
                None
            },
        }
    }
}

fn read_token(line: &str) -> (result: Option<TreebankToken>)
    ensures
        result is Some <==> token_in(line@) is Some,
        result matches Some(token) ==> token_in(line@) == Some(token@),
{
    let columns: Vec<String> = columns_of(line, '\t');
    let ghost all = split_on(line@, '\t');
    assert(texts(columns@).len() == columns@.len());
    if columns.len() != 10 {
        return None;
    }
    assert(all[0] == columns@[0]@ && all[1] == columns@[1]@ && all[3] == columns@[3]@ && all[9]
        == columns@[9]@);
    if holds_character(columns[0].as_str(), '-') || holds_character(columns[0].as_str(), '.') {
        return None;
    }
    let pronunciation: String = match unidic_pronunciation(columns[9].as_str()) {
        Some(pronunciation) => pronunciation,
        None => if is_phrase_boundary(columns[3].as_str()) {
            columns[1].clone()
        } else {
            return None;
        },
    };
    let fields: Vec<String> = columns_of(columns[9].as_str(), '|');
    let unspaced: bool = holds_text(fields.as_slice(), "SpaceAfter=No");
    Some(
        TreebankToken {
            id: columns[0].clone(),
            surface: columns[1].clone(),
            upos: columns[3].clone(),
            pronunciation,
            space_after: !unspaced,
        },
    )
}

// ---------------------------------------------------------------------------
// Sentences
// ---------------------------------------------------------------------------

/// The sentences that were read, and the one that is being read.
pub type Reading = (Seq<SentenceView>, SentenceView);

/// A sentence of which nothing was read.
pub open spec fn no_sentence() -> SentenceView {
    SentenceView { id: Seq::empty(), text: Seq::empty(), tokens: Seq::empty() }
}

/// What was read after one more line. An empty line ends a sentence that has tokens.
pub open spec fn with_line(state: Reading, line: Seq<char>) -> Reading {
    if line.len() == 0 {
        if state.1.tokens.len() > 0 {
            (state.0.push(state.1), no_sentence())
        } else {
            state
        }
    } else if "# sent_id = "@.is_prefix_of(line) {
        (state.0, SentenceView { id: line.skip("# sent_id = "@.len() as int), ..state.1 })
    } else if "# text = "@.is_prefix_of(line) {
        (state.0, SentenceView { text: line.skip("# text = "@.len() as int), ..state.1 })
    } else if line[0] == '#' {
        state
    } else {
        match token_in(line) {
            Some(token) => (
                state.0,
                SentenceView { tokens: state.1.tokens.push(token), ..state.1 },
            ),
            None => state,
        }
    }
}

/// What was read after some lines.
pub open spec fn with_lines(rows: Seq<Seq<char>>) -> Reading
    decreases rows.len(),
{
    if rows.len() == 0 {
        (Seq::empty(), no_sentence())
    } else {
        with_line(with_lines(rows.drop_last()), rows.last())
    }
}

/// The sentences of a treebank. The end of the text ends the last one.
pub open spec fn sentences_in(source: Seq<char>) -> Seq<SentenceView> {
    with_line(with_lines(lines(source)), Seq::empty()).0
}

/// Every sentence of a treebank has tokens.
pub proof fn sentences_have_tokens(source: Seq<char>)
    ensures
        forall|i: int|
            0 <= i < sentences_in(source).len() ==> (#[trigger] sentences_in(
                source,
            )[i]).tokens.len() > 0,
{
    read_sentences_have_tokens(lines(source));
}

proof fn read_sentences_have_tokens(rows: Seq<Seq<char>>)
    ensures
        forall|i: int|
            0 <= i < with_lines(rows).0.len() ==> (#[trigger] with_lines(rows).0[i]).tokens.len()
                > 0,
    decreases rows.len(),
{
    if rows.len() > 0 {
        read_sentences_have_tokens(rows.drop_last());
        let before = with_lines(rows.drop_last());
        let after = with_lines(rows);
        assert(after == with_line(before, rows.last()));
        assert forall|i: int| 0 <= i < after.0.len() implies (#[trigger] after.0[i]).tokens.len()
            > 0 by {
            if i < before.0.len() {
                assert(after.0[i] == before.0[i]);
            }
        }
    }
}

fn empty_sentence() -> (result: Sentence)
    ensures
        result@ == no_sentence(),
{
    let result: Sentence = Sentence {
        id: String::new(),
        text: String::new(),
        tokens: Vec::new(),
    };
    assert(result.id@ =~= Seq::empty() && result.text@ =~= Seq::empty());
    assert(treebank_tokens(result.tokens@) =~= Seq::empty());
    result
}

fn read_line(sentences: &mut Vec<Sentence>, sentence: Sentence, line: &str) -> (result: Sentence)
    ensures
        (sentence_views(final(sentences)@), result@) == with_line(
            (sentence_views(old(sentences)@), sentence@),
            line@,
        ),
{
    let mut sentence: Sentence = sentence;
    if line.is_empty() {
        if sentence.tokens.len() > 0 {
            let ghost before = sentence_views(sentences@);
            let ghost view = sentence@;
            sentences.push(sentence);
            assert(sentence_views(sentences@) =~= before.push(view));
            return empty_sentence();
        }
        return sentence;
    }
    if let Some(id) = after_prefix(line, "# sent_id = ") {
        sentence.id = id;
        return sentence;
    }
    if let Some(text) = after_prefix(line, "# text = ") {
        sentence.text = text;
        return sentence;
    }
    proof {
        reveal_strlit("#");
        assert("#"@ =~= seq!['#']);
        if "#"@.is_prefix_of(line@) {
            assert(line@.subrange(0, 1)[0] == '#');
        }
        if line@[0] == '#' {
            assert(line@.subrange(0, 1) =~= "#"@);
        }
    }
    if begins_with(line, "#") {
        return sentence;
    }
    if let Some(token) = read_token(line) {
        let ghost before = treebank_tokens(sentence.tokens@);
        let ghost view = token@;
        sentence.tokens.push(token);
        assert(treebank_tokens(sentence.tokens@) =~= before.push(view));
    }
    sentence
}

/// The sentences of a treebank.
pub fn parse_conllu(source: &str) -> (result: Vec<Sentence>)
    ensures
        sentence_views(result@) == sentences_in(source@),
{
    let rows: Vec<String> = lines_of(source);
    let ghost all = lines(source@);
    let mut sentences: Vec<Sentence> = Vec::new();
    let mut sentence: Sentence = empty_sentence();
    assert(all.len() == rows@.len());
    assert(all.take(0) =~= Seq::<Seq<char>>::empty());
    assert(sentence_views(sentences@) =~= Seq::<SentenceView>::empty());
    for index in 0..rows.len()
        invariant
            all == texts(rows@),
            all.len() == rows@.len(),
            (sentence_views(sentences@), sentence@) == with_lines(all.take(index as int)),
    {
        assert(all.take(index + 1).drop_last() =~= all.take(index as int));
        assert(all[index as int] == rows@[index as int]@);
        sentence = read_line(&mut sentences, sentence, rows[index].as_str());
    }
    assert(all.take(all.len() as int) =~= all);
    proof {
        reveal_strlit("");
        assert(""@ =~= Seq::<char>::empty());
    }
    let _ = read_line(&mut sentences, sentence, "");
    sentences
}

// ---------------------------------------------------------------------------
// What the columns say
// ---------------------------------------------------------------------------

/// The token of a line of ten columns: its number, its surface, its part of speech and its
/// pronunciation stand in the first, second, fourth and tenth one; a token over several words, or
/// between two of them, is none.
pub proof fn a_token_is_read_from_its_columns(columns: Seq<Seq<char>>)
    requires
        columns.len() == 10,
        forall|i: int| 0 <= i < columns.len() ==> !(#[trigger] columns[i]).contains('\t'),
    ensures
        ({
            let found = token_in(crate::text::join_with(columns, '\t'));
            let said = pronunciation_in(columns[9]);
            &&& found is Some <==> !columns[0].contains('-') && !columns[0].contains('.') && (
            said is Some || columns[3] == "PUNCT"@ || columns[3] == "SYM"@)
            &&& found matches Some(token) ==> {
                &&& token.id == columns[0] && token.surface == columns[1] && token.upos
                    == columns[3]
                &&& said is Some ==> token.pronunciation == said->0
                &&& said is None ==> token.pronunciation == columns[1]
                &&& token.space_after <==> !split_on(columns[9], '|').contains("SpaceAfter=No"@)
            }
        }),
{
    crate::text::joined_columns_split_again(columns, '\t');
}

/// The pronunciation is the fifth value behind `UnidicInfo=`, wherever this field stands.
pub proof fn the_fifth_value_is_the_pronunciation(
    before: Seq<Seq<char>>,
    values: Seq<Seq<char>>,
)
    requires
        forall|i: int|
            0 <= i < before.len() ==> !(#[trigger] before[i]).contains('|')
                && !"UnidicInfo="@.is_prefix_of(before[i]),
        values.len() >= 5,
        forall|i: int|
            0 <= i < values.len() ==> !(#[trigger] values[i]).contains(',') && !values[i].contains(
                '|',
            ),
    ensures
        ({
            let field = "UnidicInfo="@ + crate::text::join_with(values, ',');
            let misc = crate::text::join_with(before.push(field), '|');
            pronunciation_in(misc) == (if values[4].len() > 0 {
                Some(values[4])
            } else {
                None
            })
        }),
{
    let prefix = "UnidicInfo="@;
    let joined = crate::text::join_with(values, ',');
    let field = prefix + joined;
    let fields = before.push(field);
    reveal_strlit("UnidicInfo=");
    joined_text_holds_no_bar(values);
    assert(!field.contains('|')) by {
        assert forall|i: int| 0 <= i < field.len() implies field[i] != '|' by {
            if i >= prefix.len() {
                assert(field[i] == joined[i - prefix.len()]);
                assert(joined.contains(joined[i - prefix.len()]));
            }
        }
    }
    crate::text::joined_columns_split_again(fields, '|');
    crate::text::joined_columns_split_again(values, ',');
    assert(field.subrange(0, prefix.len() as int) =~= prefix);
    assert(prefix.is_prefix_of(fields[before.len() as int]));
    assert(field.skip(prefix.len() as int) =~= joined);
    the_first_field_is_found(fields, prefix, 0, before.len() as int);
}

proof fn the_first_field_is_found(fields: Seq<Seq<char>>, prefix: Seq<char>, index: int, at: int)
    requires
        0 <= index <= at < fields.len(),
        forall|i: int| index <= i < at ==> !prefix.is_prefix_of(#[trigger] fields[i]),
        prefix.is_prefix_of(fields[at]),
    ensures
        first_after_prefix(fields, prefix, index) == Some(fields[at].skip(prefix.len() as int)),
    decreases at - index,
{
    if index < at {
        the_first_field_is_found(fields, prefix, index + 1, at);
    }
}

proof fn joined_text_holds_no_bar(values: Seq<Seq<char>>)
    requires
        values.len() >= 1,
        forall|i: int| 0 <= i < values.len() ==> !(#[trigger] values[i]).contains('|'),
    ensures
        !crate::text::join_with(values, ',').contains('|'),
    decreases values.len(),
{
    if values.len() > 1 {
        let rest = values.drop_last();
        joined_text_holds_no_bar(rest);
        let before = crate::text::join_with(rest, ',');
        let all = crate::text::join_with(values, ',');
        assert forall|i: int| 0 <= i < all.len() implies all[i] != '|' by {
            if i < before.len() {
                assert(all[i] == before[i]);
                assert(before.contains(before[i]));
            } else if i > before.len() {
                assert(all[i] == values.last()[i - before.len() - 1]);
                assert(values.last().contains(values.last()[i - before.len() - 1]));
            }
        }
    }
}

/// A sentence is what stands between two empty lines: the identifier and the text of its headings,
/// and its tokens in order. The end of the text ends the last one.
pub proof fn headings_and_tokens_make_a_sentence(
    state: Reading,
    id: Seq<char>,
    text: Seq<char>,
    line: Seq<char>,
)
    requires
        line.len() > 0,
        line[0] != '#',
        token_in(line) is Some,
    ensures
        with_line(state, "# sent_id = "@ + id) == (
            state.0,
            SentenceView { id, text: state.1.text, tokens: state.1.tokens },
        ),
        with_line(state, "# text = "@ + text) == (
            state.0,
            SentenceView { id: state.1.id, text, tokens: state.1.tokens },
        ),
        with_line(state, line) == (
            state.0,
            SentenceView {
                id: state.1.id,
                text: state.1.text,
                tokens: state.1.tokens.push(token_in(line)->0),
            },
        ),
        state.1.tokens.len() > 0 ==> with_line(state, Seq::empty()) == (
            state.0.push(state.1),
            SentenceView { id: Seq::empty(), text: Seq::empty(), tokens: Seq::empty() },
        ),
        state.1.tokens.len() == 0 ==> with_line(state, Seq::empty()) == state,
{
    reveal_strlit("# sent_id = ");
    reveal_strlit("# text = ");
    let first = "# sent_id = "@;
    let second = "# text = "@;
    let named = first + id;
    let told = second + text;
    assert(named.subrange(0, first.len() as int) =~= first);
    assert(named.skip(first.len() as int) =~= id);
    assert(told.subrange(0, second.len() as int) =~= second);
    assert(told.skip(second.len() as int) =~= text);
    assert(told[2] == 't' && first[2] == 's');
    assert(!first.is_prefix_of(told)) by {
        if first.is_prefix_of(told) {
            assert(told.subrange(0, first.len() as int)[2] == first[2]);
        }
    }
    assert(!first.is_prefix_of(line)) by {
        if first.is_prefix_of(line) {
            assert(line.subrange(0, first.len() as int)[0] == first[0]);
        }
    }
    assert(!second.is_prefix_of(line)) by {
        if second.is_prefix_of(line) {
            assert(line.subrange(0, second.len() as int)[0] == second[0]);
        }
    }
}

/// Every line counts, in order.
pub proof fn lines_are_read_one_after_the_other(rows: Seq<Seq<char>>, line: Seq<char>)
    ensures
        with_lines(rows.push(line)) == with_line(with_lines(rows), line),
        with_lines(Seq::<Seq<char>>::empty()).0.len() == 0,
{
    assert(rows.push(line).drop_last() =~= rows);
}

} // verus!
