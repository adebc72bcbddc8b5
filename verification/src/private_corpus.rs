//! Private corpora: tokens with bounds, and digests of lines. No error repeats what it reads.

use vstd::prelude::*;
use vstd::string::*;
use vstd::utf8::*;

use crate::corpus::TextPair;
use crate::kana::{
    hiragana_text_with_marks, is_hiragana_mark, is_plain_hiragana, katakana_to_hiragana_with_marks,
};
use crate::primitives::{sha256, sha256_digest};
use crate::text::{
    any_control, character_count, characters, count_text, decimal, has_control, joined,
    split_at_last, split_last, texts, words, words_of,
};

verus! {

/// How many bytes all inputs together may have.
pub const MAX_TOTAL_INPUT_BYTES: u64 = 268_435_456;

/// How many bytes a line may have.
pub const MAX_LINE_BYTES: usize = 65_536;

/// How many tokens a line may have.
pub const MAX_TOKENS_PER_LINE: usize = 512;

/// How many characters a surface or a reading may have.
pub const MAX_TOKEN_CHARACTERS: usize = 128;

/// A surface with its reading.
#[derive(Debug, PartialEq, Eq)]
pub struct Token {
    pub surface: String,
    pub reading: String,
}

impl View for Token {
    type V = TextPair;

    open spec fn view(&self) -> TextPair {
        (self.surface@, self.reading@)
    }
}

/// The surfaces and readings of some tokens.
pub open spec fn token_views(tokens: Seq<Token>) -> Seq<TextPair> {
    Seq::new(tokens.len(), |i: int| tokens[i]@)
}

/// Whether a surface or a reading is neither empty nor too long, and free of control
/// characters.
pub open spec fn is_valid_field(value: Seq<char>) -> bool {
    0 < value.len() <= MAX_TOKEN_CHARACTERS && !has_control(value)
}

pub fn valid_token_field(value: &str) -> (result: bool)
    ensures
        result == is_valid_field(value@),
{
    let count: usize = character_count(value);
    0 < count && count <= MAX_TOKEN_CHARACTERS && !any_control(value)
}

/// The message on a line of an annotated corpus.
pub open spec fn corpus_error(number: nat, problem: Seq<char>) -> Seq<char> {
    "annotated corpus line "@ + decimal(number) + problem
}

fn error_on_line(number: usize, problem: &str) -> (result: String)
    ensures
        result@ == corpus_error(number as nat, problem@),
{
    let digits: String = count_text(number);
    let start: String = joined("annotated corpus line ", digits.as_str());
    joined(start.as_str(), problem)
}

/// The tokens of the first `count` words of a line, or what is wrong with the line.
pub open spec fn bounded_tokens(items: Seq<Seq<char>>, count: int) -> Result<
    Seq<TextPair>,
    Seq<char>,
>
    decreases count,
{
    if count <= 0 {
        Ok(Seq::empty())
    } else {
        match bounded_tokens(items, count - 1) {
            Err(problem) => Err(problem),
            Ok(tokens) => match split_last(items[count - 1], '/') {
                None => Err(" has a malformed token"@),
                Some(parts) => if !is_valid_field(parts.0) || !is_valid_field(parts.1) {
                    Err(" has an invalid token"@)
                } else if tokens.len() + 1 > MAX_TOKENS_PER_LINE {
                    Err(" exceeds the token limit"@)
                } else {
                    Ok(tokens.push(parts))
                },
            },
        }
    }
}

/// The tokens of a line, or what is wrong with it.
pub open spec fn annotated_line(line: Seq<char>) -> Result<Seq<TextPair>, Seq<char>> {
    if encode_utf8(line).len() > MAX_LINE_BYTES {
        Err(" exceeds the byte limit"@)
    } else {
        match bounded_tokens(words(line), words(line).len() as int) {
            Err(problem) => Err(problem),
            Ok(tokens) => if tokens.len() == 0 {
                Err(" has no tokens"@)
            } else {
                Ok(tokens)
            },
        }
    }
}

proof fn problem_stays(items: Seq<Seq<char>>, low: int, high: int)
    requires
        bounded_tokens(items, low) is Err,
        0 <= low <= high,
    ensures
        bounded_tokens(items, high) == bounded_tokens(items, low),
    decreases high - low,
{
    if low < high {
        problem_stays(items, low, high - 1);
    }
}

/// Whether a line has more bytes than allowed.
pub fn exceeds_bytes(line: &str, maximum: usize) -> (result: bool)
    ensures
        result == (encode_utf8(line@).len() > maximum),
{
    let bytes: &[u8] = line.as_bytes();
    bytes.len() > maximum
}

/// The tokens of a line of a private corpus.
pub fn parse_annotated_line(line: &str, line_number: usize) -> (result: Result<Vec<Token>, String>)
    ensures
        match annotated_line(line@) {
            Ok(tokens) => result is Ok && token_views(result->Ok_0@) == tokens,
            Err(problem) => result is Err && result->Err_0@ == corpus_error(
                line_number as nat,
                problem,
            ),
        },
{
    if exceeds_bytes(line, MAX_LINE_BYTES) {
        return Err(error_on_line(line_number, " exceeds the byte limit"));
    }
    let found: Vec<String> = words_of(line);
    let ghost items = words(line@);
    let mut tokens: Vec<Token> = Vec::new();
    assert(token_views(tokens@) =~= Seq::<TextPair>::empty());
    for index in 0..found.len()
        invariant
            items == texts(found@),
            items == words(line@),
            encode_utf8(line@).len() <= MAX_LINE_BYTES,
            bounded_tokens(items, index as int) == Ok::<Seq<TextPair>, Seq<char>>(
                token_views(tokens@),
            ),
    {
        assert(items[index as int] == found@[index as int]@);
        let ghost before = token_views(tokens@);
        assert(before.len() == tokens@.len());
        match split_at_last(found[index].as_str(), '/') {
            None => {
                proof {
                    problem_stays(items, index + 1, items.len() as int);
                }
                return Err(error_on_line(line_number, " has a malformed token"));
            },
            Some(parts) => {
                if !valid_token_field(parts.0.as_str()) || !valid_token_field(parts.1.as_str()) {
                    proof {
                        problem_stays(items, index + 1, items.len() as int);
                    }
                    return Err(error_on_line(line_number, " has an invalid token"));
                }
                if tokens.len() >= MAX_TOKENS_PER_LINE {
                    proof {
                        problem_stays(items, index + 1, items.len() as int);
                    }
                    return Err(error_on_line(line_number, " exceeds the token limit"));
                }
                let ghost view = (parts.0@, parts.1@);
                tokens.push(Token { surface: parts.0, reading: parts.1 });
                assert(token_views(tokens@) =~= before.push(view));
            },
        }
    }
    assert(token_views(tokens@).len() == tokens@.len());
    if tokens.len() == 0 {
        return Err(error_on_line(line_number, " has no tokens"));
    }
    Ok(tokens)
}

/// Errors repeat nothing of the line: lines with the same problem get the same message.
pub proof fn errors_say_nothing_of_the_line(line: Seq<char>)
    requires
        annotated_line(line) is Err,
    ensures
        ({
            let problem = annotated_line(line)->Err_0;
            problem == " exceeds the byte limit"@ || problem == " has a malformed token"@ || problem
                == " has an invalid token"@ || problem == " exceeds the token limit"@ || problem
                == " has no tokens"@
        }),
{
    if encode_utf8(line).len() <= MAX_LINE_BYTES {
        problems_are_few(words(line), words(line).len() as int);
    }
}

proof fn problems_are_few(items: Seq<Seq<char>>, count: int)
    ensures
        bounded_tokens(items, count) matches Err(problem) ==> problem == " has a malformed token"@
            || problem == " has an invalid token"@ || problem == " exceeds the token limit"@,
    decreases count,
{
    if count > 0 {
        problems_are_few(items, count - 1);
    }
}

// ---------------------------------------------------------------------------
// Readings
// ---------------------------------------------------------------------------

/// A character of a phonetic reading: hiragana, its iteration marks or the long vowel mark.
pub open spec fn is_phonetic(character: char) -> bool {
    is_plain_hiragana(character) || is_hiragana_mark(character) || character == 'ー'
}

/// Whether the text is a phonetic reading.
pub open spec fn is_phonetic_text(text: Seq<char>) -> bool {
    text.len() > 0 && forall|i: int| 0 <= i < text.len() ==> is_phonetic(#[trigger] text[i])
}

/// The reading as hiragana, if it is phonetic.
pub open spec fn phonetic_reading(reading: Seq<char>) -> Option<Seq<char>> {
    if is_phonetic_text(hiragana_text_with_marks(reading)) {
        Some(hiragana_text_with_marks(reading))
    } else {
        None
    }
}

pub fn normalize_phonetic_reading(reading: &str) -> (result: Option<String>)
    ensures
        result is Some <==> phonetic_reading(reading@) is Some,
        result matches Some(text) ==> phonetic_reading(reading@) == Some(text@),
{
    let normalized: String = katakana_to_hiragana_with_marks(reading);
    let letters: Vec<char> = characters(normalized.as_str());
    if letters.len() == 0 {
        return None;
    }
    for index in 0..letters.len()
        invariant
            letters@ == normalized@,
            normalized@ == hiragana_text_with_marks(reading@),
            forall|i: int| 0 <= i < index ==> is_phonetic(#[trigger] letters@[i]),
    {
        let character: char = letters[index];
        if !(('ぁ' <= character && character <= 'ゖ') || character == 'ゝ' || character == 'ゞ'
            || character == 'ー') {
            assert(!is_phonetic(normalized@[index as int]));
            return None;
        }
    }
    Some(normalized)
}

/// The reading as it is hashed: phonetic readings as hiragana, others as they are.
pub open spec fn hashed_reading(reading: Seq<char>) -> Seq<char> {
    match phonetic_reading(reading) {
        Some(normalized) => normalized,
        None => reading,
    }
}

/// A reading does not depend on the kana it is written in.
pub proof fn readings_do_not_depend_on_the_script(reading: Seq<char>)
    requires
        phonetic_reading(reading) is Some,
    ensures
        phonetic_reading(hiragana_text_with_marks(reading)) == phonetic_reading(reading),
        hashed_reading(hiragana_text_with_marks(reading)) == hashed_reading(reading),
{
    crate::kana::hiragana_conversion_is_idempotent(reading);
}

// ---------------------------------------------------------------------------
// Digests
// ---------------------------------------------------------------------------

/// The bytes of a line as they are hashed: of each token the surface, a zero byte, the reading
/// and a byte that no UTF-8 text holds.
pub open spec fn line_bytes(tokens: Seq<TextPair>) -> Seq<u8>
    decreases tokens.len(),
{
    if tokens.len() == 0 {
        Seq::empty()
    } else {
        line_bytes(tokens.drop_last()) + encode_utf8(tokens.last().0) + seq![0u8] + encode_utf8(
            hashed_reading(tokens.last().1),
        ) + seq![0xFFu8]
    }
}

/// Adds the bytes of a text.
pub fn push_bytes(bytes: &mut Vec<u8>, text: &str)
    ensures
        final(bytes)@ == old(bytes)@ + encode_utf8(text@),
{
    let added: &[u8] = text.as_bytes();
    let ghost start = bytes@;
    for index in 0..added.len()
        invariant
            added@ == encode_utf8(text@),
            bytes@ == start + added@.take(index as int),
    {
        bytes.push(added[index]);
        assert(bytes@ =~= start + added@.take(index + 1));
    }
    assert(added@.take(added@.len() as int) =~= added@);
}

/// The digest of a line. It does not depend on the kana that the readings are written in.
pub fn hash_tokens(tokens: &[Token]) -> (result: Vec<u8>)
    ensures
        result@ == sha256(line_bytes(token_views(tokens@))),
        result@.len() == 32,
{
    let ghost all = token_views(tokens@);
    let mut bytes: Vec<u8> = Vec::new();
    assert(all.take(0) =~= Seq::<TextPair>::empty());
    for index in 0..tokens.len()
        invariant
            all == token_views(tokens@),
            bytes@ == line_bytes(all.take(index as int)),
    {
        let ghost longer = all.take(index + 1);
        assert(longer.drop_last() =~= all.take(index as int));
        assert(longer.last() == tokens@[index as int]@);
        push_bytes(&mut bytes, tokens[index].surface.as_str());
        bytes.push(0);
        match normalize_phonetic_reading(tokens[index].reading.as_str()) {
            Some(reading) => {
                push_bytes(&mut bytes, reading.as_str());
            },
            None => {
                push_bytes(&mut bytes, tokens[index].reading.as_str());
            },
        }
        bytes.push(0xFF);
        assert(bytes@ =~= line_bytes(longer));
    }
    assert(all.take(all.len() as int) =~= all);
    sha256_digest(bytes.as_slice())
}

/// Lines that differ only in the kana of their readings have the same digest.
pub proof fn digests_do_not_depend_on_the_script(left: Seq<TextPair>, right: Seq<TextPair>)
    requires
        left.len() == right.len(),
        forall|i: int|
            0 <= i < left.len() ==> (#[trigger] left[i]).0 == right[i].0 && hashed_reading(
                left[i].1,
            ) == hashed_reading(right[i].1),
    ensures
        sha256(line_bytes(left)) == sha256(line_bytes(right)),
{
    bytes_do_not_depend_on_the_script(left, right);
}

proof fn bytes_do_not_depend_on_the_script(left: Seq<TextPair>, right: Seq<TextPair>)
    requires
        left.len() == right.len(),
        forall|i: int|
            0 <= i < left.len() ==> (#[trigger] left[i]).0 == right[i].0 && hashed_reading(
                left[i].1,
            ) == hashed_reading(right[i].1),
    ensures
        line_bytes(left) == line_bytes(right),
    decreases left.len(),
{
    if left.len() > 0 {
        bytes_do_not_depend_on_the_script(left.drop_last(), right.drop_last());
        assert(left.last() == left[left.len() - 1]);
    }
}

/// The hexadecimal digit of a number below sixteen.
pub open spec fn hex_digit(value: int) -> char {
    if value < 10 {
        (48 + value) as u8 as char
    } else {
        (87 + value) as u8 as char
    }
}

/// The bytes as lower-case hexadecimal digits, two for each.
pub open spec fn hex(bytes: Seq<u8>) -> Seq<char>
    decreases bytes.len(),
{
    if bytes.len() == 0 {
        Seq::empty()
    } else {
        hex(bytes.drop_last()).push(hex_digit(bytes.last() as int / 16)).push(
            hex_digit(bytes.last() as int % 16),
        )
    }
}

pub(crate) fn digit_of(value: u8) -> (result: char)
    requires
        value < 16,
    ensures
        result == hex_digit(value as int),
{
    if value < 10 {
        (48 + value) as char
    } else {
        (87 + value) as char
    }
}

pub fn hex_text(bytes: &[u8]) -> (result: String)
    ensures
        result@ == hex(bytes@),
{
    let mut result: String = String::new();
    assert(hex(bytes@.take(0)) =~= Seq::<char>::empty());
    for index in 0..bytes.len()
        invariant
            result@ == hex(bytes@.take(index as int)),
    {
        assert(bytes@.take(index + 1).drop_last() =~= bytes@.take(index as int));
        result.push(digit_of(bytes[index] / 16));
        result.push(digit_of(bytes[index] % 16));
    }
    assert(bytes@.take(bytes@.len() as int) =~= bytes@);
    result
}

/// The digest of some bytes in hexadecimal digits.
pub fn sha256_hex(bytes: &[u8]) -> (result: String)
    ensures
        result@ == hex(sha256(bytes@)),
        result@.len() == 64,
{
    let digest: Vec<u8> = sha256_digest(bytes);
    proof {
        hex_has_two_digits_for_each_byte(digest@);
    }
    hex_text(digest.as_slice())
}

/// There are two digits for each byte.
pub proof fn hex_has_two_digits_for_each_byte(bytes: Seq<u8>)
    ensures
        hex(bytes).len() == 2 * bytes.len(),
    decreases bytes.len(),
{
    if bytes.len() > 0 {
        hex_has_two_digits_for_each_byte(bytes.drop_last());
    }
}

/// Different bytes have different digits.
pub proof fn hex_is_injective(left: Seq<u8>, right: Seq<u8>)
    requires
        hex(left) == hex(right),
    ensures
        left == right,
    decreases left.len(),
{
    hex_has_two_digits_for_each_byte(left);
    hex_has_two_digits_for_each_byte(right);
    if left.len() > 0 {
        let digits = hex(left);
        assert(digits.drop_last().drop_last() =~= hex(left.drop_last()));
        assert(digits.drop_last().drop_last() =~= hex(right.drop_last()));
        hex_is_injective(left.drop_last(), right.drop_last());
        let high = digits[digits.len() - 2];
        let low = digits[digits.len() - 1];
        assert(high == hex_digit(left.last() as int / 16));
        assert(high == hex_digit(right.last() as int / 16));
        assert(low == hex_digit(left.last() as int % 16));
        assert(low == hex_digit(right.last() as int % 16));
        assert(left =~= left.drop_last().push(left.last()));
        assert(right =~= right.drop_last().push(right.last()));
    } else {
        assert(left =~= right);
    }
}

// ---------------------------------------------------------------------------
// Inputs
// ---------------------------------------------------------------------------

/// The bytes of all inputs with one more, or why it cannot be read.
pub fn add_input_bytes(total: u64, length: u64) -> (result: Result<u64, String>)
    ensures
        result is Ok <==> total + length <= MAX_TOTAL_INPUT_BYTES,
        result matches Ok(sum) ==> sum == total + length,
        result matches Err(error) ==> error@ == (if total + length > u64::MAX {
            "input byte total overflowed"@
        } else {
            "inputs exceed the "@ + decimal(MAX_TOTAL_INPUT_BYTES as nat) + " byte limit"@
        }),
{
    match total.checked_add(length) {
        None => Err("input byte total overflowed".to_owned()),
        Some(sum) => if sum > MAX_TOTAL_INPUT_BYTES {
            let limit: String = crate::text::decimal_text(MAX_TOTAL_INPUT_BYTES);
            let start: String = joined("inputs exceed the ", limit.as_str());
            Err(joined(start.as_str(), " byte limit"))
        } else {
            Ok(sum)
        },
    }
}

/// Whether a token can stand on a line of a private corpus.
pub open spec fn is_private_token(token: TextPair) -> bool {
    &&& 0 < token.0.len() <= 128 && 0 < token.1.len() <= 128
    &&& !has_control(token.0) && !has_control(token.1)
    &&& !crate::reading_back::has_white_space(token.0)
    &&& !crate::reading_back::has_white_space(token.1)
    &&& !token.1.contains('/')
}

/// The words of some tokens: surface, slash, reading.
pub open spec fn slashed(tokens: Seq<TextPair>) -> Seq<Seq<char>> {
    Seq::new(tokens.len(), |i: int| tokens[i].0 + seq!['/'] + tokens[i].1)
}

/// A line of one to 512 tokens, each a surface and a reading of at most 128 characters without
/// control characters and white space, with spaces between them and at most 65536 bytes, is read as
/// these tokens.
pub proof fn tokens_of_a_private_line_are_read(tokens: Seq<TextPair>)
    requires
        0 < tokens.len() <= 512,
        forall|i: int| 0 <= i < tokens.len() ==> is_private_token(#[trigger] tokens[i]),
        encode_utf8(crate::text::spaced(slashed(tokens))).len() <= 65_536,
    ensures
        annotated_line(crate::text::spaced(slashed(tokens))) == Ok::<Seq<TextPair>, Seq<char>>(
            tokens,
        ),
{
    let items = slashed(tokens);
    assert forall|i: int| 0 <= i < items.len() implies (#[trigger] items[i]).len() > 0
        && !crate::reading_back::has_white_space(items[i]) by {
        let token = tokens[i];
        assert(is_private_token(tokens[i]));
        let word = items[i];
        assert forall|k: int| 0 <= k < word.len() implies !crate::text::is_white_space(
            #[trigger] word[k],
        ) by {
            if k < token.0.len() {
                assert(word[k] == token.0[k]);
            } else if k > token.0.len() {
                assert(word[k] == token.1[k - token.0.len() - 1]);
            }
        }
    }
    crate::text::spaced_words_are_found(items);
    slashed_words_are_tokens(tokens, tokens.len() as int);
    assert(tokens.take(tokens.len() as int) =~= tokens);
}

proof fn slashed_words_are_tokens(tokens: Seq<TextPair>, count: int)
    requires
        0 <= count <= tokens.len() <= 512,
        forall|i: int| 0 <= i < tokens.len() ==> is_private_token(#[trigger] tokens[i]),
    ensures
        bounded_tokens(slashed(tokens), count) == Ok::<Seq<TextPair>, Seq<char>>(tokens.take(count)),
    decreases count,
{
    if count > 0 {
        slashed_words_are_tokens(tokens, count - 1);
        let token = tokens[count - 1];
        assert(is_private_token(tokens[count - 1]));
        crate::corpus::a_token_is_split_at_its_last_slash(token.0, token.1);
        let word = slashed(tokens)[count - 1];
        let at = token.0.len() as int;
        assert(word[at] == '/');
        word.index_of_last_ensures('/');
        let found = word.index_of_last('/')->0;
        if found > at {
            assert(token.1[found - at - 1] == '/');
        }
        assert(word.take(at) =~= token.0);
        assert(word.skip(at + 1) =~= token.1);
        assert(tokens.take(count - 1).push(token) =~= tokens.take(count));
    } else {
        assert(tokens.take(0) =~= Seq::<TextPair>::empty());
    }
}

/// A reading is phonetic exactly if it is not empty and every character is a hiragana or katakana
/// that has the other, an iteration mark, or the long vowel mark; it then becomes hiragana.
pub proof fn phonetic_readings_are_kana(reading: Seq<char>)
    ensures
        phonetic_reading(reading) is Some <==> reading.len() > 0 && forall|i: int|
            0 <= i < reading.len() ==> {
                let character = #[trigger] reading[i];
                ||| 'ぁ' <= character <= 'ゖ' || 'ァ' <= character <= 'ヶ'
                ||| character == 'ゝ' || character == 'ゞ' || character == 'ヽ' || character == 'ヾ'
                ||| character == 'ー'
            },
        phonetic_reading(reading) matches Some(found) ==> found == hiragana_text_with_marks(reading),
{
    let found = hiragana_text_with_marks(reading);
    assert forall|i: int| 0 <= i < reading.len() implies (is_phonetic(found[i]) <==> {
        let character = #[trigger] reading[i];
        ||| 'ぁ' <= character <= 'ゖ' || 'ァ' <= character <= 'ヶ'
        ||| character == 'ゝ' || character == 'ゞ' || character == 'ヽ' || character == 'ヾ'
        ||| character == 'ー'
    }) by {
        crate::kana::kana_stand_ninety_six_codes_apart(reading[i]);
    }
    if phonetic_reading(reading) is Some {
        assert forall|i: int| 0 <= i < reading.len() implies {
            let character = #[trigger] reading[i];
            ||| 'ぁ' <= character <= 'ゖ' || 'ァ' <= character <= 'ヶ'
            ||| character == 'ゝ' || character == 'ゞ' || character == 'ヽ' || character == 'ヾ'
            ||| character == 'ー'
        } by {
            assert(is_phonetic(found[i]));
        }
    }
}

/// The digits of each byte are its value in base sixteen.
pub proof fn hex_digits_are_those_of_the_bytes(bytes: Seq<u8>, index: int)
    requires
        0 <= index < bytes.len(),
    ensures
        hex(bytes).len() == 2 * bytes.len(),
        crate::json::hex_value(hex(bytes)[2 * index]) == Some(bytes[index] as int / 16),
        crate::json::hex_value(hex(bytes)[2 * index + 1]) == Some(bytes[index] as int % 16),
    decreases bytes.len(),
{
    hex_has_two_digits_for_each_byte(bytes);
    let rest = bytes.drop_last();
    hex_has_two_digits_for_each_byte(rest);
    if index < rest.len() {
        hex_digits_are_those_of_the_bytes(rest, index);
        assert(hex(bytes)[2 * index] == hex(rest)[2 * index]);
        assert(hex(bytes)[2 * index + 1] == hex(rest)[2 * index + 1]);
    }
}

/// What is hashed of a line is, for each token in order, its surface, a zero byte, its reading and the
/// byte 255.
pub proof fn every_token_is_hashed(tokens: Seq<TextPair>, token: TextPair)
    ensures
        line_bytes(Seq::<TextPair>::empty()) == Seq::<u8>::empty(),
        line_bytes(tokens.push(token)) == line_bytes(tokens) + encode_utf8(token.0) + seq![0u8]
            + encode_utf8(
            match phonetic_reading(token.1) {
                Some(reading) => reading,
                None => token.1,
            },
        ) + seq![255u8],
{
    assert(tokens.push(token).drop_last() =~= tokens);
}

} // verus!
