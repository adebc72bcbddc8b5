//! Lines of annotated corpora: tokens of a surface and its reading.

use vstd::prelude::*;
use vstd::string::*;

use crate::primitives::{debug_text, text_debug};
use crate::text::{
    begins_with, joined, split_at_last, split_last, texts, trim, trimmed, words,
    words_of,
};

verus! {

/// A surface with its reading, or two other texts that belong together.
pub type TextPair = (Seq<char>, Seq<char>);

/// The character sequences of a list of pairs.
pub open spec fn pairs(values: Seq<(String, String)>) -> Seq<TextPair> {
    Seq::new(values.len(), |i: int| (values[i].0@, values[i].1@))
}

/// Whether a corpus line says nothing: it is blank or a comment.
pub open spec fn is_ignorable(line: Seq<char>) -> bool {
    trim(line).len() == 0 || seq![';', ';'].is_prefix_of(trim(line))
}

/// Whether a corpus line says nothing: it is blank or a comment.
pub fn ignorable_line(line: &str) -> (result: bool)
    ensures
        result == is_ignorable(line@),
{
    let inner: String = trimmed(line);
    proof {
        reveal_strlit(";;");
        assert(";;"@ =~= seq![';', ';']);
    }
    inner.as_str().is_empty() || begins_with(inner.as_str(), ";;")
}

/// The surface and the reading of a token, or the error.
pub open spec fn token_of(word: Seq<char>) -> Result<TextPair, Seq<char>> {
    match split_last(word, '/') {
        None => Err("expected surface/reading token, got "@ + text_debug(word)),
        Some(parts) => if parts.0.len() == 0 || parts.1.len() == 0 {
            Err("surface and reading must not be empty in "@ + text_debug(word))
        } else {
            Ok(parts)
        },
    }
}

/// The tokens of the first `count` words, or the error of the first word that is none.
pub open spec fn tokens_before(items: Seq<Seq<char>>, count: int) -> Result<
    Seq<TextPair>,
    Seq<char>,
>
    decreases count,
{
    if count <= 0 {
        Ok(Seq::empty())
    } else {
        match tokens_before(items, count - 1) {
            Err(error) => Err(error),
            Ok(tokens) => match token_of(items[count - 1]) {
                Err(error) => Err(error),
                Ok(token) => Ok(tokens.push(token)),
            },
        }
    }
}

/// The tokens of a corpus line.
pub open spec fn line_tokens(line: Seq<char>) -> Result<Seq<TextPair>, Seq<char>> {
    if is_ignorable(line) {
        Ok(Seq::empty())
    } else {
        tokens_before(words(trim(line)), words(trim(line)).len() as int)
    }
}

proof fn token_error_stays(items: Seq<Seq<char>>, low: int, high: int)
    requires
        tokens_before(items, low) is Err,
        0 <= low <= high,
    ensures
        tokens_before(items, high) == tokens_before(items, low),
    decreases high - low,
{
    if low < high {
        token_error_stays(items, low, high - 1);
    }
}

fn read_token(word: &str) -> (result: Result<(String, String), String>)
    ensures
        match token_of(word@) {
            Ok(token) => result is Ok && (result->Ok_0.0@, result->Ok_0.1@) == token,
            Err(error) => result is Err && result->Err_0@ == error,
        },
{
    match split_at_last(word, '/') {
        None => {
            let shown: String = debug_text(word);
            Err(joined("expected surface/reading token, got ", shown.as_str()))
        },
        Some(parts) => if parts.0.as_str().is_empty() || parts.1.as_str().is_empty() {
            let shown: String = debug_text(word);
            Err(joined("surface and reading must not be empty in ", shown.as_str()))
        } else {
            Ok(parts)
        },
    }
}

/// The tokens of a corpus line; none if it says nothing.
pub fn parse_annotated_corpus_line(line: &str) -> (result: Result<Vec<(String, String)>, String>)
    ensures
        match line_tokens(line@) {
            Ok(tokens) => result is Ok && pairs(result->Ok_0@) == tokens,
            Err(error) => result is Err && result->Err_0@ == error,
        },
{
    let mut result: Vec<(String, String)> = Vec::new();
    assert(pairs(result@) =~= Seq::<TextPair>::empty());
    if ignorable_line(line) {
        return Ok(result);
    }
    let inner: String = trimmed(line);
    let found: Vec<String> = words_of(inner.as_str());
    let ghost items = words(trim(line@));
    for index in 0..found.len()
        invariant
            items == texts(found@),
            items == words(trim(line@)),
            !is_ignorable(line@),
            tokens_before(items, index as int) == Ok::<Seq<TextPair>, Seq<char>>(pairs(result@)),
    {
        assert(items[index as int] == found@[index as int]@);
        let ghost before = pairs(result@);
        match read_token(found[index].as_str()) {
            Ok(token) => {
                let ghost view = (token.0@, token.1@);
                result.push(token);
                assert(pairs(result@) =~= before.push(view));
            },
            Err(error) => {
                proof {
                    token_error_stays(items, index + 1, items.len() as int);
                }
                return Err(error);
            },
        }
    }
    Ok(result)
}

/// Every token of a line has a surface and a reading.
pub proof fn tokens_are_never_empty(items: Seq<Seq<char>>, count: int)
    requires
        tokens_before(items, count) is Ok,
    ensures
        forall|i: int|
            0 <= i < tokens_before(items, count)->Ok_0.len() ==> {
                let token = #[trigger] tokens_before(items, count)->Ok_0[i];
                token.0.len() > 0 && token.1.len() > 0
            },
        count >= 0 ==> tokens_before(items, count)->Ok_0.len() == count,
    decreases count,
{
    if count > 0 {
        tokens_are_never_empty(items, count - 1);
    }
}

/// The same pairs.
pub fn copied_pairs(values: &Vec<(String, String)>) -> (result: Vec<(String, String)>)
    ensures
        pairs(result@) == pairs(values@),
{
    let mut result: Vec<(String, String)> = Vec::new();
    for index in 0..values.len()
        invariant
            result@.len() == index,
            forall|i: int| 0 <= i < index ==> #[trigger] pairs(result@)[i] == pairs(values@)[i],
    {
        let ghost before = pairs(result@);
        result.push((values[index].0.clone(), values[index].1.clone()));
        assert(pairs(result@) =~= before.push(pairs(values@)[index as int]));
    }
    assert(pairs(result@) =~= pairs(values@));
    result
}

/// A line says nothing exactly if nothing is left of it without the white space around it, or if it
/// then begins with two semicolons.
pub proof fn blank_lines_and_comments_say_nothing(line: Seq<char>)
    ensures
        is_ignorable(line) <==> trim(line).len() == 0 || (trim(line).len() >= 2 && trim(line)[0]
            == ';' && trim(line)[1] == ';'),
        is_ignorable(line) ==> line_tokens(line) == Ok::<Seq<TextPair>, Seq<char>>(Seq::empty()),
{
    let text = trim(line);
    let mark = seq![';', ';'];
    if mark.is_prefix_of(text) {
        assert(text.subrange(0, 2)[0] == ';' && text.subrange(0, 2)[1] == ';');
    }
    if text.len() >= 2 && text[0] == ';' && text[1] == ';' {
        assert(text.subrange(0, 2) =~= mark);
    }
}

/// A token is a surface and a reading with a slash between them: the last one, so that a surface may
/// hold slashes and a reading may not.
pub proof fn a_token_is_split_at_its_last_slash(surface: Seq<char>, reading: Seq<char>)
    requires
        surface.len() > 0,
        reading.len() > 0,
        !reading.contains('/'),
    ensures
        token_of(surface + seq!['/'] + reading) == Ok::<TextPair, Seq<char>>((surface, reading)),
{
    let word = surface + seq!['/'] + reading;
    let at = surface.len() as int;
    assert(word[at] == '/');
    word.index_of_last_ensures('/');
    let found = word.index_of_last('/')->0;
    if found > at {
        assert(reading[found - at - 1] == '/');
    }
    assert(word.take(at) =~= surface);
    assert(word.skip(at + 1) =~= reading);
}

} // verus!
