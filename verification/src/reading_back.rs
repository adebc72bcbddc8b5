//! What is written can be read again: corpora, tables of phrases and rules, and the records
//! of a pack.

use vstd::prelude::*;
use vstd::string::*;
use vstd::utf8::*;

use crate::balanced;
use crate::conllu::SentenceView;
use crate::context_rules::{rule_lines, RuleView};
use crate::corpus::{line_tokens, token_of, tokens_before, TextPair};
use crate::devset::{self, token_line};
use crate::dictionary_pack::{MAX_CONTEXT_RULES, MAX_ENTRIES, MAX_PACK_LINE_BYTES};
use crate::kana::hiragana_text;
use crate::pack_text::{
    entry_lines, key_lines, pack_entries, pack_entry_step, pack_rule_step, pack_rules, EntryView,
    RuleKey,
};
use crate::phrases::phrase_lines;
use crate::tables::{
    fold_rows, is_skipped, pair_key_of, recall_items, recall_row, recall_step, PairRows,
};
use crate::text::{
    decimal, decimal_reads_back, is_white_space, join_with, joined_columns_split_again, lines,
    scan_words, signed_decimal, signed_value, split_on, terminated, terminated_lines_read_back,
    trim, trim_start, without_carriage_return,
};

verus! {

// ---------------------------------------------------------------------------
// Annotated lines
// ---------------------------------------------------------------------------

/// Whether the text holds white space.
pub open spec fn has_white_space(text: Seq<char>) -> bool {
    exists|i: int| 0 <= i < text.len() && is_white_space(#[trigger] text[i])
}

/// Whether a token can stand on an annotated line: both texts hold something and no white
/// space, and the reading holds no slash.
pub open spec fn is_writable_token(token: TextPair) -> bool {
    token.0.len() > 0 && token.1.len() > 0 && !has_white_space(token.0) && !has_white_space(token.1)
        && !token.1.contains('/')
}

/// Whether tokens can stand on an annotated line: each of them can, and the line does not
/// begin as a comment does.
pub open spec fn is_writable_line(tokens: Seq<TextPair>) -> bool {
    &&& forall|i: int| 0 <= i < tokens.len() ==> is_writable_token(#[trigger] tokens[i])
    &&& tokens.len() > 0 ==> !seq![';', ';'].is_prefix_of(tokens[0].0)
}

spec fn token_text(token: TextPair) -> Seq<char> {
    token.0.push('/') + token.1
}

spec fn token_texts(tokens: Seq<TextPair>) -> Seq<Seq<char>> {
    Seq::new(tokens.len(), |i: int| token_text(tokens[i]))
}

proof fn token_text_has_no_white_space(token: TextPair)
    requires
        is_writable_token(token),
    ensures
        !has_white_space(token_text(token)),
        token_text(token).len() > 2,
{
    let text = token_text(token);
    assert forall|i: int| 0 <= i < text.len() implies !is_white_space(#[trigger] text[i]) by {
        if i < token.0.len() {
            assert(text[i] == token.0[i]);
        } else if i == token.0.len() {
            assert(text[i] == '/');
        } else {
            assert(text[i] == token.1[i - token.0.len() - 1]);
        }
    }
}

proof fn token_text_reads_back(token: TextPair)
    requires
        is_writable_token(token),
    ensures
        token_of(token_text(token)) == Ok::<TextPair, Seq<char>>(token),
{
    let text = token_text(token);
    let at = token.0.len() as int;
    assert(text[at] == '/');
    text.index_of_last_ensures('/');
    let found = text.index_of_last('/')->0;
    if found > at {
        assert(token.1[found - at - 1] == '/');
    }
    assert(found == at);
    assert(text.take(at) =~= token.0);
    assert(text.skip(at + 1) =~= token.1);
}

pub(crate) proof fn the_open_word_grows(text: Seq<char>, more: Seq<char>)
    requires
        !has_white_space(more),
    ensures
        scan_words(text + more) == (scan_words(text).0, scan_words(text).1 + more),
    decreases more.len(),
{
    if more.len() == 0 {
        assert(text + more =~= text);
        assert(scan_words(text).1 + more =~= scan_words(text).1);
    } else {
        let shorter = more.drop_last();
        assert forall|i: int| 0 <= i < shorter.len() implies !is_white_space(
            #[trigger] shorter[i],
        ) by {
            assert(shorter[i] == more[i]);
        }
        the_open_word_grows(text, shorter);
        assert((text + more).drop_last() =~= text + shorter);
        assert(!is_white_space(more[more.len() - 1]));
        assert((scan_words(text).1 + shorter).push(more.last()) =~= scan_words(text).1 + more);
    }
}

proof fn tokens_are_words(tokens: Seq<TextPair>)
    requires
        tokens.len() > 0,
        forall|i: int| 0 <= i < tokens.len() ==> is_writable_token(#[trigger] tokens[i]),
    ensures
        scan_words(token_line(tokens)) == (
            token_texts(tokens.drop_last()),
            token_text(tokens.last()),
        ),
    decreases tokens.len(),
{
    reveal_strlit(" ");
    reveal_strlit("/");
    let before = tokens.drop_last();
    let text = token_text(tokens.last());
    let nothing = Seq::<char>::empty();
    token_text_has_no_white_space(tokens.last());
    if tokens.len() == 1 {
        assert(token_line(before) == nothing);
        assert(token_line(tokens) =~= nothing + text);
        the_open_word_grows(nothing, text);
        assert(nothing + text =~= text);
        assert(token_texts(before) =~= Seq::<Seq<char>>::empty());
    } else {
        tokens_are_words(before);
        token_text_has_no_white_space(before.last());
        let line = token_line(before);
        let separated = line.push(' ');
        assert(separated.drop_last() =~= line);
        assert(is_white_space(' '));
        assert(token_line(tokens) =~= separated + text);
        the_open_word_grows(separated, text);
        assert(nothing + text =~= text);
        assert(token_texts(before.drop_last()).push(token_text(before.last())) =~= token_texts(
            before,
        ));
    }
}

proof fn words_are_tokens(tokens: Seq<TextPair>, count: int)
    requires
        0 <= count <= tokens.len(),
        forall|i: int| 0 <= i < tokens.len() ==> is_writable_token(#[trigger] tokens[i]),
    ensures
        tokens_before(token_texts(tokens), count) == Ok::<Seq<TextPair>, Seq<char>>(
            tokens.take(count),
        ),
    decreases count,
{
    if count > 0 {
        words_are_tokens(tokens, count - 1);
        token_text_reads_back(tokens[count - 1]);
        assert(tokens.take(count - 1).push(tokens[count - 1]) =~= tokens.take(count));
    } else {
        assert(tokens.take(0) =~= Seq::<TextPair>::empty());
    }
}

proof fn a_line_begins_and_ends_with_its_tokens(tokens: Seq<TextPair>)
    requires
        tokens.len() > 0,
        forall|i: int| 0 <= i < tokens.len() ==> is_writable_token(#[trigger] tokens[i]),
    ensures
        token_text(tokens[0]).is_prefix_of(token_line(tokens)),
        token_line(tokens).last() == tokens.last().1.last(),
    decreases tokens.len(),
{
    reveal_strlit(" ");
    reveal_strlit("/");
    let before = tokens.drop_last();
    let line = token_line(tokens);
    assert(is_writable_token(tokens.last()));
    if tokens.len() == 1 {
        assert(token_line(before) == Seq::<char>::empty());
        assert(line =~= token_text(tokens[0]));
    } else {
        a_line_begins_and_ends_with_its_tokens(before);
        assert(is_writable_token(tokens[0]));
        let first = token_text(tokens[0]);
        assert(line.subrange(0, first.len() as int) =~= token_line(before).subrange(
            0,
            first.len() as int,
        ));
    }
}

/// Tokens that are written on a line are read from it again.
pub proof fn written_tokens_read_back(tokens: Seq<TextPair>)
    requires
        is_writable_line(tokens),
    ensures
        line_tokens(token_line(tokens)) == Ok::<Seq<TextPair>, Seq<char>>(tokens),
{
    let line = token_line(tokens);
    if tokens.len() == 0 {
        assert(tokens =~= Seq::<TextPair>::empty());
        assert(trim_start(line) == line);
    } else {
        a_line_begins_and_ends_with_its_tokens(tokens);
        let first = token_text(tokens[0]);
        let start = tokens[0].0;
        let end = tokens.last().1;
        assert(is_writable_token(tokens[0]) && is_writable_token(tokens.last()));
        assert(line.subrange(0, first.len() as int)[0] == line[0]);
        assert(line[0] == start[0]);
        assert(!is_white_space(start[0]));
        assert(!is_white_space(end[end.len() - 1]));
        assert(trim(line) == line);
        if seq![';', ';'].is_prefix_of(line) {
            let mark = seq![';', ';'];
            assert(line.subrange(0, 2)[0] == ';' && line.subrange(0, 2)[1] == ';');
            assert(line.subrange(0, first.len() as int)[1] == line[1]);
            assert(first[1] == ';');
            assert(start.len() >= 2);
            assert(start.subrange(0, 2) =~= mark);
        }
        tokens_are_words(tokens);
        assert(token_texts(tokens.drop_last()).push(token_text(tokens.last())) =~= token_texts(
            tokens,
        ));
        token_text_has_no_white_space(tokens.last());
        words_are_tokens(tokens, tokens.len() as int);
        assert(tokens.take(tokens.len() as int) =~= tokens);
    }
}

proof fn a_line_has_no_line_feed(tokens: Seq<TextPair>)
    requires
        forall|i: int| 0 <= i < tokens.len() ==> is_writable_token(#[trigger] tokens[i]),
    ensures
        forall|i: int|
            0 <= i < token_line(tokens).len() ==> (#[trigger] token_line(tokens)[i] == ' '
                || !is_white_space(token_line(tokens)[i])),
    decreases tokens.len(),
{
    if tokens.len() > 0 {
        reveal_strlit(" ");
        reveal_strlit("/");
        let before = tokens.drop_last();
        a_line_has_no_line_feed(before);
        token_text_has_no_white_space(tokens.last());
        let text = token_text(tokens.last());
        let line = token_line(tokens);
        let start = line.len() - text.len();
        assert(line.skip(start) =~= text);
        assert forall|i: int| 0 <= i < line.len() implies #[trigger] line[i] == ' '
            || !is_white_space(line[i]) by {
            if i >= start {
                assert(line[i] == text[i - start]);
            } else if i < token_line(before).len() {
                assert(line[i] == token_line(before)[i]);
            }
        }
    }
}

/// The lines of an annotated corpus with these tokens.
pub open spec fn token_rows(written: Seq<Seq<TextPair>>) -> Seq<Seq<char>> {
    Seq::new(written.len(), |i: int| token_line(written[i]))
}

proof fn written_rows_read_back(written: Seq<Seq<TextPair>>)
    requires
        forall|i: int| 0 <= i < written.len() ==> is_writable_line(#[trigger] written[i]),
    ensures
        lines(terminated(token_rows(written))) == token_rows(written),
        forall|i: int|
            0 <= i < written.len() ==> line_tokens(#[trigger] token_rows(written)[i]) == Ok::<
                Seq<TextPair>,
                Seq<char>,
            >(written[i]),
{
    let rows = token_rows(written);
    assert forall|i: int| 0 <= i < rows.len() implies !(#[trigger] rows[i]).contains('\n')
        && without_carriage_return(rows[i]) == rows[i] && line_tokens(rows[i]) == Ok::<
        Seq<TextPair>,
        Seq<char>,
    >(written[i]) by {
        let tokens = written[i];
        assert(is_writable_line(tokens));
        a_line_has_no_line_feed(tokens);
        written_tokens_read_back(tokens);
        if rows[i].contains('\n') {
            let at = choose|at: int| 0 <= at < rows[i].len() && rows[i][at] == '\n';
            assert(token_line(tokens)[at] == '\n');
        }
        if rows[i].len() > 0 {
            assert(token_line(tokens)[rows[i].len() - 1] != '\r');
        }
    }
    terminated_lines_read_back(rows);
}

proof fn item_lines_are_rows(items: Seq<devset::DevItemView>)
    ensures
        devset::corpus_lines(items) == terminated(
            token_rows(Seq::new(items.len(), |i: int| items[i].annotated_tokens)),
        ),
    decreases items.len(),
{
    let rows = token_rows(Seq::new(items.len(), |i: int| items[i].annotated_tokens));
    if items.len() > 0 {
        reveal_strlit("\n");
        let before = items.drop_last();
        item_lines_are_rows(before);
        assert(rows.drop_last() =~= token_rows(
            Seq::new(before.len(), |i: int| before[i].annotated_tokens),
        ));
        assert(devset::corpus_lines(items) =~= terminated(rows));
    }
}

/// The annotated corpus of some items has a line for each item, and the tokens of the item
/// are read from it.
pub proof fn written_items_read_back(items: Seq<devset::DevItemView>)
    requires
        forall|i: int|
            0 <= i < items.len() ==> is_writable_line((#[trigger] items[i]).annotated_tokens),
    ensures
        lines(devset::corpus_lines(items)).len() == items.len(),
        forall|i: int|
            0 <= i < items.len() ==> line_tokens(
                #[trigger] lines(devset::corpus_lines(items))[i],
            ) == Ok::<Seq<TextPair>, Seq<char>>(items[i].annotated_tokens),
{
    let written = Seq::new(items.len(), |i: int| items[i].annotated_tokens);
    assert forall|i: int| 0 <= i < written.len() implies is_writable_line(
        #[trigger] written[i],
    ) by {
        assert(written[i] == items[i].annotated_tokens);
    }
    item_lines_are_rows(items);
    written_rows_read_back(written);
}

proof fn sentence_lines_are_rows(sentences: Seq<SentenceView>)
    ensures
        balanced::corpus_lines(sentences) == terminated(
            token_rows(
                Seq::new(sentences.len(), |i: int| balanced::writable_tokens(sentences[i].tokens)),
            ),
        ),
    decreases sentences.len(),
{
    let rows = token_rows(
        Seq::new(sentences.len(), |i: int| balanced::writable_tokens(sentences[i].tokens)),
    );
    if sentences.len() > 0 {
        reveal_strlit("\n");
        let before = sentences.drop_last();
        sentence_lines_are_rows(before);
        assert(rows.drop_last() =~= token_rows(
            Seq::new(before.len(), |i: int| balanced::writable_tokens(before[i].tokens)),
        ));
        assert(balanced::corpus_lines(sentences) =~= terminated(rows));
    }
}

/// The annotated corpus of some sentences has a line for each sentence, and the tokens that
/// were written are read from it.
pub proof fn written_sentences_read_back(sentences: Seq<SentenceView>)
    requires
        forall|i: int|
            0 <= i < sentences.len() ==> is_writable_line(
                balanced::writable_tokens((#[trigger] sentences[i]).tokens),
            ),
    ensures
        lines(balanced::corpus_lines(sentences)).len() == sentences.len(),
        forall|i: int|
            0 <= i < sentences.len() ==> line_tokens(
                #[trigger] lines(balanced::corpus_lines(sentences))[i],
            ) == Ok::<Seq<TextPair>, Seq<char>>(balanced::writable_tokens(sentences[i].tokens)),
{
    let written = Seq::new(
        sentences.len(),
        |i: int| balanced::writable_tokens(sentences[i].tokens),
    );
    assert forall|i: int| 0 <= i < written.len() implies is_writable_line(
        #[trigger] written[i],
    ) by {
        assert(written[i] == balanced::writable_tokens(sentences[i].tokens));
    }
    sentence_lines_are_rows(sentences);
    written_rows_read_back(written);
}

// ---------------------------------------------------------------------------
// Tables
// ---------------------------------------------------------------------------

/// Whether a text can be a column: it holds something, and neither a tab nor a line feed.
pub open spec fn is_plain_column(text: Seq<char>) -> bool {
    text.len() > 0 && !text.contains('\t') && !text.contains('\n')
}

proof fn numbers_are_plain_columns(value: int)
    ensures
        is_plain_column(signed_decimal(value)),
        signed_value(signed_decimal(value)) == Some(value),
        signed_decimal(value).last() != '\r',
{
    let text = signed_decimal(value);
    let magnitude = if value < 0 {
        (-value) as nat
    } else {
        value as nat
    };
    decimal_reads_back(magnitude);
    let digits = decimal(magnitude);
    let start: int = text.len() - digits.len();
    assert(text.skip(start) =~= digits);
    assert forall|i: int| 0 <= i < text.len() implies text[i] != '\t' && text[i] != '\n' && text[i]
        != '\r' by {
        if i >= start {
            assert(text[i] == digits[i - start]);
        }
    }
    if value < 0 {
        assert(text.skip(1) =~= digits);
    }
}

proof fn a_row_has_no_line_feed(columns: Seq<Seq<char>>)
    requires
        columns.len() > 0,
        forall|i: int| 0 <= i < columns.len() ==> is_plain_column(#[trigger] columns[i]),
    ensures
        !join_with(columns, '\t').contains('\n'),
        join_with(columns, '\t').len() > 0,
        join_with(columns, '\t')[0] == columns[0][0],
        join_with(columns, '\t').last() == columns.last().last(),
    decreases columns.len(),
{
    assert(is_plain_column(columns[0]) && is_plain_column(columns.last()));
    if columns.len() > 1 {
        let before = columns.drop_last();
        a_row_has_no_line_feed(before);
        let start = join_with(before, '\t');
        let row = join_with(columns, '\t');
        assert forall|i: int| 0 <= i < row.len() implies row[i] != '\n' by {
            if i < start.len() {
                assert(row[i] == start[i]);
                assert(start.contains(start[i]));
            } else if i > start.len() {
                assert(row[i] == columns.last()[i - start.len() - 1]);
                assert(columns.last().contains(row[i]));
            }
        }
    }
}

/// The columns of a rule in the order in which they are written.
pub open spec fn key_columns(rule: RuleKey) -> Seq<Seq<char>> {
    seq![rule.1, rule.0, rule.3, decimal(rule.2 as nat)]
}

/// Whether a rule of a pack can be written down: its texts can be columns, its line is not
/// taken for a comment and not too long, and its number is one of 16 bits.
pub open spec fn is_writable_key(rule: RuleKey) -> bool {
    &&& is_plain_column(rule.0) && is_plain_column(rule.1) && is_plain_column(rule.3)
    &&& rule.1[0] != '#'
    &&& 0 <= rule.2 <= u16::MAX
    &&& encode_utf8(join_with(key_columns(rule), '\t')).len() <= MAX_PACK_LINE_BYTES
}

spec fn key_rows(rules: Seq<RuleKey>) -> Seq<Seq<char>> {
    Seq::new(rules.len(), |i: int| join_with(key_columns(rules[i]), '\t'))
}

proof fn key_columns_are_found(rule: RuleKey)
    requires
        is_writable_key(rule),
    ensures
        ({
            let row = join_with(key_columns(rule), '\t');
            &&& split_on(row, '\t') == key_columns(rule)
            &&& !row.contains('\n')
            &&& without_carriage_return(row) == row
            &&& !is_skipped(row)
            &&& row == rule.1.push('\t') + rule.0.push('\t') + rule.3.push('\t') + decimal(
                rule.2 as nat,
            )
        }),
{
    let columns = key_columns(rule);
    numbers_are_plain_columns(rule.2);
    joined_columns_split_again(columns, '\t');
    a_row_has_no_line_feed(columns);
    assert(columns.drop_last() =~= seq![rule.1, rule.0, rule.3]);
    assert(columns.drop_last().drop_last() =~= seq![rule.1, rule.0]);
    assert(columns.drop_last().drop_last().drop_last() =~= seq![rule.1]);
    assert(join_with(seq![rule.1], '\t') == rule.1);
    assert(join_with(seq![rule.1, rule.0], '\t') == rule.1.push('\t') + rule.0);
    assert(join_with(seq![rule.1, rule.0, rule.3], '\t') == (rule.1.push('\t') + rule.0).push('\t')
        + rule.3);
    let row = join_with(columns, '\t');
    assert(row =~= rule.1.push('\t') + rule.0.push('\t') + rule.3.push('\t') + decimal(
        rule.2 as nat,
    ));
}

proof fn key_lines_are_rows(rules: Seq<RuleKey>)
    requires
        forall|i: int| 0 <= i < rules.len() ==> is_writable_key(#[trigger] rules[i]),
    ensures
        key_lines(rules) == terminated(key_rows(rules)),
    decreases rules.len(),
{
    if rules.len() > 0 {
        reveal_strlit("\n");
        reveal_strlit("\t");
        let before = rules.drop_last();
        key_lines_are_rows(before);
        key_columns_are_found(rules.last());
        assert(key_rows(rules).drop_last() =~= key_rows(before));
        assert(key_lines(rules) =~= terminated(key_rows(rules)));
    }
}

proof fn key_rows_are_rules(rules: Seq<RuleKey>, count: int)
    requires
        0 <= count <= rules.len() <= MAX_CONTEXT_RULES,
        forall|i: int| 0 <= i < rules.len() ==> is_writable_key(#[trigger] rules[i]),
    ensures
        fold_rows(Seq::empty(), key_rows(rules), pack_rule_step(), count) == Ok::<
            Seq<RuleKey>,
            Seq<char>,
        >(rules.take(count)),
    decreases count,
{
    if count > 0 {
        key_rows_are_rules(rules, count - 1);
        let rule = rules[count - 1];
        key_columns_are_found(rule);
        decimal_reads_back(rule.2 as nat);
        assert(rules.take(count - 1).push(rule) =~= rules.take(count));
    } else {
        assert(rules.take(0) =~= Seq::<RuleKey>::empty());
    }
}

/// The rules of a pack are read from the lines that are written for them.
pub proof fn written_pack_rules_read_back(rules: Seq<RuleKey>)
    requires
        rules.len() <= MAX_CONTEXT_RULES,
        forall|i: int| 0 <= i < rules.len() ==> is_writable_key(#[trigger] rules[i]),
    ensures
        pack_rules(key_lines(rules)) == Ok::<Seq<RuleKey>, Seq<char>>(rules),
{
    let rows = key_rows(rules);
    assert forall|i: int| 0 <= i < rows.len() implies !(#[trigger] rows[i]).contains('\n')
        && without_carriage_return(rows[i]) == rows[i] by {
        key_columns_are_found(rules[i]);
    }
    key_lines_are_rows(rules);
    terminated_lines_read_back(rows);
    key_rows_are_rules(rules, rules.len() as int);
    assert(rules.take(rules.len() as int) =~= rules);
}

/// A rule that was taken from a corpus as a rule of a pack.
pub open spec fn key_of(rule: RuleView) -> RuleKey {
    (rule.reading, rule.previous_surface, 0, rule.surface)
}

proof fn rule_lines_are_key_lines(rules: Seq<RuleView>)
    ensures
        rule_lines(rules) == key_lines(Seq::new(rules.len(), |i: int| key_of(rules[i]))),
    decreases rules.len(),
{
    let keys = Seq::new(rules.len(), |i: int| key_of(rules[i]));
    if rules.len() > 0 {
        reveal_strlit("\n");
        reveal_strlit("\t");
        reveal_strlit("\t0\n");
        let before = rules.drop_last();
        rule_lines_are_key_lines(before);
        assert(keys.drop_last() =~= Seq::new(before.len(), |i: int| key_of(before[i])));
        assert(decimal(0) =~= seq!['0']);
        assert(rule_lines(rules) =~= key_lines(keys));
    }
}

/// The rules that were taken from a corpus are what a pack is given when it reads the lines
/// that were written for them.
pub proof fn written_context_rules_read_back(rules: Seq<RuleView>)
    requires
        rules.len() <= MAX_CONTEXT_RULES,
        forall|i: int| 0 <= i < rules.len() ==> is_writable_key(key_of(#[trigger] rules[i])),
    ensures
        pack_rules(rule_lines(rules)) == Ok::<Seq<RuleKey>, Seq<char>>(
            Seq::new(rules.len(), |i: int| key_of(rules[i])),
        ),
{
    let keys = Seq::new(rules.len(), |i: int| key_of(rules[i]));
    assert forall|i: int| 0 <= i < keys.len() implies is_writable_key(#[trigger] keys[i]) by {
        assert(keys[i] == key_of(rules[i]));
    }
    rule_lines_are_key_lines(rules);
    written_pack_rules_read_back(keys);
}

/// The columns of an entry in the order in which they are written.
pub open spec fn entry_columns(entry: EntryView) -> Seq<Seq<char>> {
    seq![entry.0, entry.1, signed_decimal(entry.2)]
}

/// Whether an entry of a pack can be written down: its texts can be columns, its line is not
/// taken for a comment and not too long, and its cost is one of 32 bits.
pub open spec fn is_writable_entry(entry: EntryView) -> bool {
    &&& is_plain_column(entry.0) && is_plain_column(entry.1)
    &&& entry.0[0] != '#'
    &&& i32::MIN <= entry.2 <= i32::MAX
    &&& encode_utf8(join_with(entry_columns(entry), '\t')).len() <= MAX_PACK_LINE_BYTES
}

spec fn entry_rows(entries: Seq<EntryView>) -> Seq<Seq<char>> {
    Seq::new(entries.len(), |i: int| join_with(entry_columns(entries[i]), '\t'))
}

proof fn entry_columns_are_found(entry: EntryView)
    requires
        is_writable_entry(entry),
    ensures
        ({
            let row = join_with(entry_columns(entry), '\t');
            &&& split_on(row, '\t') == entry_columns(entry)
            &&& !row.contains('\n')
            &&& without_carriage_return(row) == row
            &&& !is_skipped(row)
            &&& row == entry.0.push('\t') + entry.1.push('\t') + signed_decimal(entry.2)
        }),
{
    let columns = entry_columns(entry);
    numbers_are_plain_columns(entry.2);
    joined_columns_split_again(columns, '\t');
    a_row_has_no_line_feed(columns);
    assert(columns.drop_last() =~= seq![entry.0, entry.1]);
    assert(columns.drop_last().drop_last() =~= seq![entry.0]);
    assert(join_with(seq![entry.0], '\t') == entry.0);
    assert(join_with(seq![entry.0, entry.1], '\t') == entry.0.push('\t') + entry.1);
    let row = join_with(columns, '\t');
    assert(row =~= entry.0.push('\t') + entry.1.push('\t') + signed_decimal(entry.2));
}

proof fn entry_lines_are_rows(entries: Seq<EntryView>)
    requires
        forall|i: int| 0 <= i < entries.len() ==> is_writable_entry(#[trigger] entries[i]),
    ensures
        entry_lines(entries) == terminated(entry_rows(entries)),
    decreases entries.len(),
{
    if entries.len() > 0 {
        reveal_strlit("\n");
        reveal_strlit("\t");
        let before = entries.drop_last();
        entry_lines_are_rows(before);
        entry_columns_are_found(entries.last());
        assert(entry_rows(entries).drop_last() =~= entry_rows(before));
        assert(entry_lines(entries) =~= terminated(entry_rows(entries)));
    }
}

proof fn entry_rows_are_entries(entries: Seq<EntryView>, count: int)
    requires
        0 <= count <= entries.len() <= MAX_ENTRIES,
        forall|i: int| 0 <= i < entries.len() ==> is_writable_entry(#[trigger] entries[i]),
    ensures
        fold_rows(Seq::empty(), entry_rows(entries), pack_entry_step(), count) == Ok::<
            Seq<EntryView>,
            Seq<char>,
        >(entries.take(count)),
    decreases count,
{
    if count > 0 {
        entry_rows_are_entries(entries, count - 1);
        let entry = entries[count - 1];
        entry_columns_are_found(entry);
        numbers_are_plain_columns(entry.2);
        assert(entries.take(count - 1).push(entry) =~= entries.take(count));
    } else {
        assert(entries.take(0) =~= Seq::<EntryView>::empty());
    }
}

/// The entries of a pack are read from the lines that are written for them.
pub proof fn written_pack_entries_read_back(entries: Seq<EntryView>)
    requires
        entries.len() <= MAX_ENTRIES,
        forall|i: int| 0 <= i < entries.len() ==> is_writable_entry(#[trigger] entries[i]),
    ensures
        pack_entries(entry_lines(entries)) == Ok::<Seq<EntryView>, Seq<char>>(entries),
{
    let rows = entry_rows(entries);
    assert forall|i: int| 0 <= i < rows.len() implies !(#[trigger] rows[i]).contains('\n')
        && without_carriage_return(rows[i]) == rows[i] by {
        entry_columns_are_found(entries[i]);
    }
    entry_lines_are_rows(entries);
    terminated_lines_read_back(rows);
    entry_rows_are_entries(entries, entries.len() as int);
    assert(entries.take(entries.len() as int) =~= entries);
}

// ---------------------------------------------------------------------------
// Phrases
// ---------------------------------------------------------------------------

/// Whether a phrase can be written down: its texts can be columns, its line is not taken for
/// a comment, and the surface does not end with a carriage return.
pub open spec fn is_writable_phrase(phrase: TextPair) -> bool {
    &&& is_plain_column(phrase.0) && is_plain_column(phrase.1)
    &&& phrase.0[0] != '#'
    &&& phrase.1.last() != '\r'
}

/// A phrase as it is recalled: its reading is in hiragana.
pub open spec fn recalled(phrase: TextPair) -> TextPair {
    (hiragana_text(phrase.0), phrase.1)
}

spec fn phrase_columns(phrase: TextPair) -> Seq<Seq<char>> {
    seq![phrase.0, phrase.1]
}

spec fn phrase_rows(phrases: Seq<TextPair>) -> Seq<Seq<char>> {
    Seq::new(phrases.len(), |i: int| join_with(phrase_columns(phrases[i]), '\t'))
}

/// The text by which a recalled phrase is known.
pub open spec fn recalled_key(phrase: TextPair) -> Seq<char> {
    pair_key_of(recalled(phrase).0, recalled(phrase).1)
}

proof fn phrase_columns_are_found(phrase: TextPair)
    requires
        is_writable_phrase(phrase),
    ensures
        ({
            let row = join_with(phrase_columns(phrase), '\t');
            &&& split_on(row, '\t') == phrase_columns(phrase)
            &&& !row.contains('\n')
            &&& without_carriage_return(row) == row
            &&& !is_skipped(row)
            &&& row == phrase.0.push('\t') + phrase.1
        }),
{
    let columns = phrase_columns(phrase);
    joined_columns_split_again(columns, '\t');
    a_row_has_no_line_feed(columns);
    assert(columns.drop_last() =~= seq![phrase.0]);
    assert(join_with(seq![phrase.0], '\t') == phrase.0);
}

proof fn phrase_lines_are_rows(phrases: Seq<TextPair>)
    requires
        forall|i: int| 0 <= i < phrases.len() ==> is_writable_phrase(#[trigger] phrases[i]),
    ensures
        phrase_lines(phrases) == terminated(phrase_rows(phrases)),
    decreases phrases.len(),
{
    if phrases.len() > 0 {
        reveal_strlit("\n");
        reveal_strlit("\t");
        let before = phrases.drop_last();
        phrase_lines_are_rows(before);
        phrase_columns_are_found(phrases.last());
        assert(phrase_rows(phrases).drop_last() =~= phrase_rows(before));
        assert(phrase_lines(phrases) =~= terminated(phrase_rows(phrases)));
    }
}

proof fn phrase_rows_are_items(phrases: Seq<TextPair>, count: int)
    requires
        0 <= count <= phrases.len(),
        forall|i: int| 0 <= i < phrases.len() ==> is_writable_phrase(#[trigger] phrases[i]),
        forall|i: int, j: int|
            0 <= i < j < phrases.len() ==> recalled_key(#[trigger] phrases[i]) != recalled_key(
                #[trigger] phrases[j],
            ),
    ensures
        ({
            let read = fold_rows(
                PairRows { items: Seq::empty(), seen: Set::empty() },
                phrase_rows(phrases),
                recall_step(),
                count,
            );
            &&& read is Ok
            &&& read->Ok_0.items == Seq::new(count as nat, |i: int| recalled(phrases[i]))
            &&& forall|key: Seq<char>| #[trigger]
                read->Ok_0.seen.contains(key) ==> exists|i: int|
                    0 <= i < count && recalled_key(#[trigger] phrases[i]) == key
        }),
    decreases count,
{
    let owed = Seq::new(count as nat, |i: int| recalled(phrases[i]));
    if count > 0 {
        phrase_rows_are_items(phrases, count - 1);
        let phrase = phrases[count - 1];
        phrase_columns_are_found(phrase);
        let before = fold_rows(
            PairRows { items: Seq::empty(), seen: Set::empty() },
            phrase_rows(phrases),
            recall_step(),
            count - 1,
        )->Ok_0;
        if before.seen.contains(recalled_key(phrase)) {
            let i = choose|i: int|
                0 <= i < count - 1 && recalled_key(#[trigger] phrases[i]) == recalled_key(phrase);
            assert(recalled_key(phrases[i]) != recalled_key(phrases[count - 1]));
        }
        let row = phrase_rows(phrases)[count - 1];
        let after = recall_row(before, row, count as nat);
        assert(after is Ok);
        assert(after->Ok_0.items =~= owed);
        assert forall|key: Seq<char>| #[trigger] after->Ok_0.seen.contains(key) implies exists|
            i: int,
        |
            0 <= i < count && recalled_key(#[trigger] phrases[i]) == key by {
            if key == recalled_key(phrase) {
                assert(recalled_key(phrases[count - 1]) == key);
            } else {
                assert(before.seen.contains(key));
            }
        }
    } else {
        assert(owed =~= Seq::<TextPair>::empty());
    }
}

/// The phrases are what should be recalled according to the table that is written for them,
/// with their readings in hiragana.
pub proof fn written_phrases_read_back(phrases: Seq<TextPair>)
    requires
        phrases.len() > 0,
        forall|i: int| 0 <= i < phrases.len() ==> is_writable_phrase(#[trigger] phrases[i]),
        forall|i: int, j: int|
            0 <= i < j < phrases.len() ==> recalled_key(#[trigger] phrases[i]) != recalled_key(
                #[trigger] phrases[j],
            ),
    ensures
        recall_items(phrase_lines(phrases)) == Ok::<Seq<TextPair>, Seq<char>>(
            Seq::new(phrases.len(), |i: int| recalled(phrases[i])),
        ),
{
    let rows = phrase_rows(phrases);
    assert forall|i: int| 0 <= i < rows.len() implies !(#[trigger] rows[i]).contains('\n')
        && without_carriage_return(rows[i]) == rows[i] by {
        phrase_columns_are_found(phrases[i]);
    }
    phrase_lines_are_rows(phrases);
    terminated_lines_read_back(rows);
    phrase_rows_are_items(phrases, phrases.len() as int);
}

} // verus!
