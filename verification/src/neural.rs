//! What a language model is asked to score: prompts, batches of token positions, and the rows
//! of its answers that make up the score of a candidate.

use vstd::prelude::*;
use vstd::string::*;

use crate::text::{characters, text_between, texts};
use crate::trie::{path_spells, CandidateTokenTrie};

verus! {

/// How many characters of context the model sees on either side.
pub const MAX_CONTEXT_CHARACTERS: usize = 40;

/// How many candidates are scored in one call, unless the caller says otherwise.
pub const DEFAULT_MAX_PARALLEL_CANDIDATES: usize = 16;

/// How many cells the model's memory has, unless the caller says otherwise.
pub const DEFAULT_KV_CELLS: u32 = 4096;

/// How many positions the model was trained with.
pub const MAX_POSITIONS: usize = 1024;

/// The mark before the left context.
pub const CONTEXT_MARK: char = '\u{EE02}';

/// The mark before the right context.
pub const RIGHT_CONTEXT_MARK: char = '\u{EE07}';

/// The mark before the reading.
pub const INPUT_MARK: char = '\u{EE00}';

/// The mark before the text that the model writes.
pub const OUTPUT_MARK: char = '\u{EE01}';

/// A reading in its context, with the candidates to score.
#[derive(Debug, PartialEq, Eq)]
pub struct ScoreRequest {
    pub context: String,
    pub right_context: String,
    pub input_katakana: String,
    pub candidates: Vec<String>,
}

/// The mathematical value of a request.
pub ghost struct RequestView {
    pub context: Seq<char>,
    pub right_context: Seq<char>,
    pub input_katakana: Seq<char>,
    pub candidates: Seq<Seq<char>>,
}

impl View for ScoreRequest {
    type V = RequestView;

    open spec fn view(&self) -> RequestView {
        RequestView {
            context: self.context@,
            right_context: self.right_context@,
            input_katakana: self.input_katakana@,
            candidates: texts(self.candidates@),
        }
    }
}

// ---------------------------------------------------------------------------
// Prompts
// ---------------------------------------------------------------------------

/// The last characters of a context, as many as the model sees.
pub open spec fn context_end(context: Seq<char>) -> Seq<char> {
    if context.len() <= MAX_CONTEXT_CHARACTERS {
        context
    } else {
        context.skip(context.len() - MAX_CONTEXT_CHARACTERS)
    }
}

/// The first characters of a context, as many as the model sees.
pub open spec fn context_start(context: Seq<char>) -> Seq<char> {
    if context.len() <= MAX_CONTEXT_CHARACTERS {
        context
    } else {
        context.take(MAX_CONTEXT_CHARACTERS as int)
    }
}

/// A block of a prompt behind its mark; nothing if it would be empty.
pub open spec fn block(mark: char, text: Seq<char>) -> Seq<char> {
    if text.len() == 0 {
        Seq::empty()
    } else {
        seq![mark] + text
    }
}

/// The prompt for a reading between its contexts.
pub open spec fn prompt(context: Seq<char>, right: Seq<char>, input: Seq<char>) -> Seq<char> {
    block(CONTEXT_MARK, context_end(context)) + block(RIGHT_CONTEXT_MARK, context_start(right))
        + seq![INPUT_MARK] + input + seq![OUTPUT_MARK]
}

/// A prompt is bounded whatever the contexts are.
pub proof fn prompts_are_bounded(context: Seq<char>, right: Seq<char>, input: Seq<char>)
    ensures
        prompt(context, right, input).len() <= input.len() + 2 * MAX_CONTEXT_CHARACTERS + 4,
        prompt(context, right, input).last() == OUTPUT_MARK,
{
}

/// Only the characters next to the reading count: contexts that agree in them give the same
/// prompt.
pub proof fn far_context_does_not_count(
    context: Seq<char>,
    more: Seq<char>,
    right: Seq<char>,
    beyond: Seq<char>,
    input: Seq<char>,
)
    requires
        context.len() == MAX_CONTEXT_CHARACTERS,
        right.len() == MAX_CONTEXT_CHARACTERS,
    ensures
        prompt(more + context, right + beyond, input) == prompt(context, right, input),
{
    assert(context_end(more + context) =~= context);
    assert(context_start(right + beyond) =~= right);
}

/// The prompt for a reading between its contexts. Empty contexts leave no mark.
pub fn build_prompt(context: &str, right_context: &str, input_katakana: &str) -> (result: String)
    ensures
        result@ == prompt(context@, right_context@, input_katakana@),
{
    let mut result: String = String::new();
    if !context.is_empty() {
        result.push(CONTEXT_MARK);
        let left: Vec<char> = characters(context);
        let count: usize = left.len();
        let start: usize = if count <= MAX_CONTEXT_CHARACTERS {
            0
        } else {
            count - MAX_CONTEXT_CHARACTERS
        };
        let shown: String = text_between(left.as_slice(), start, count);
        assert(shown@ =~= context_end(context@));
        result.append(shown.as_str());
    }
    assert(result@ =~= block(CONTEXT_MARK, context_end(context@)));
    let ghost first = result@;
    if !right_context.is_empty() {
        result.push(RIGHT_CONTEXT_MARK);
        let right: Vec<char> = characters(right_context);
        let end: usize = if right.len() <= MAX_CONTEXT_CHARACTERS {
            right.len()
        } else {
            MAX_CONTEXT_CHARACTERS
        };
        let shown: String = text_between(right.as_slice(), 0, end);
        assert(shown@ =~= context_start(right_context@));
        result.append(shown.as_str());
    }
    assert(result@ =~= first + block(RIGHT_CONTEXT_MARK, context_start(right_context@)));
    result.push(INPUT_MARK);
    result.append(input_katakana);
    result.push(OUTPUT_MARK);
    assert(result@ =~= prompt(context@, right_context@, input_katakana@));
    result
}

/// The prompt for a reading with only a left context.
pub fn build_left_prompt(context: &str, input_katakana: &str) -> (result: String)
    ensures
        result@ == prompt(context@, Seq::empty(), input_katakana@),
{
    proof {
        reveal_strlit("");
        assert(""@ =~= Seq::<char>::empty());
    }
    build_prompt(context, "", input_katakana)
}

// ---------------------------------------------------------------------------
// Bounds
// ---------------------------------------------------------------------------

/// The bounds of a model that is loaded: neither may be zero.
pub fn check_runtime_bounds(max_parallel_candidates: usize, kv_cells: u32) -> (result: Result<
    (),
    String,
>)
    ensures
        result is Ok <==> max_parallel_candidates > 0 && kv_cells > 0,
        result matches Err(error) ==> error@ == "neural runtime bounds must be positive"@,
{
    if max_parallel_candidates == 0 || kv_cells == 0 {
        Err("neural runtime bounds must be positive".to_owned())
    } else {
        Ok(())
    }
}

/// The number of parallel sequences as the model takes it.
pub fn sequence_counts(max_parallel_candidates: usize) -> (result: Result<(u32, i32), String>)
    ensures
        result is Ok <==> max_parallel_candidates <= i32::MAX,
        result matches Ok(counts) ==> counts.0 == max_parallel_candidates && counts.1
            == max_parallel_candidates,
        result matches Err(error) ==> error@ == (if max_parallel_candidates > u32::MAX {
            "parallel candidate count does not fit u32"@
        } else {
            "parallel candidate count does not fit i32"@
        }),
{
    let count: u64 = max_parallel_candidates as u64;
    if count > u32::MAX as u64 {
        Err("parallel candidate count does not fit u32".to_owned())
    } else if count > i32::MAX as u64 {
        Err("parallel candidate count does not fit i32".to_owned())
    } else {
        Ok((count as u32, count as i32))
    }
}

/// A position as the model takes it.
pub fn position(index: usize) -> (result: i32)
    requires
        index <= i32::MAX,
    ensures
        result == index,
{
    index as i32
}

/// The length of the longest candidate; zero if there is none.
pub open spec fn longest(lengths: Seq<usize>) -> int
    decreases lengths.len(),
{
    if lengths.len() == 0 {
        0
    } else {
        let rest = longest(lengths.drop_last());
        if lengths.last() > rest {
            lengths.last() as int
        } else {
            rest
        }
    }
}

/// Whether a prompt of this length with candidates of these lengths fits the model. Where it
/// does not, every candidate gets the same score and the order stays.
pub open spec fn fits_the_model(prompt_length: int, lengths: Seq<usize>) -> bool {
    prompt_length > 0 && prompt_length + longest(lengths) < MAX_POSITIONS
}

pub fn is_scorable(prompt_length: usize, lengths: &[usize]) -> (result: bool)
    ensures
        result == fits_the_model(prompt_length as int, lengths@),
{
    let mut greatest: usize = 0;
    for index in 0..lengths.len()
        invariant
            greatest == longest(lengths@.take(index as int)),
    {
        assert(lengths@.take(index + 1).drop_last() =~= lengths@.take(index as int));
        if lengths[index] > greatest {
            greatest = lengths[index];
        }
    }
    assert(lengths@.take(lengths@.len() as int) =~= lengths@);
    prompt_length > 0 && greatest < MAX_POSITIONS && prompt_length < MAX_POSITIONS - greatest
}

/// The chunks of at most `size` candidates each: where each starts and ends.
pub open spec fn chunks_from(start: int, count: int, size: int) -> Seq<(int, int)>
    decreases count - start,
{
    if start >= count || size <= 0 {
        Seq::empty()
    } else if count - start <= size {
        seq![(start, count)]
    } else {
        seq![(start, start + size)] + chunks_from(start + size, count, size)
    }
}

/// Every candidate belongs to one chunk: the chunks follow each other from the first candidate to
/// the last, and none is empty or too large.
pub proof fn chunks_follow_each_other(start: int, count: int, size: int)
    requires
        size > 0,
        0 <= start <= count,
    ensures
        ({
            let chunks = chunks_from(start, count, size);
            &&& chunks.len() == 0 <==> start == count
            &&& chunks.len() > 0 ==> chunks[0].0 == start && chunks.last().1 == count
            &&& forall|i: int|
                0 <= i < chunks.len() - 1 ==> (#[trigger] chunks[i]).1 == chunks[i + 1].0
            &&& forall|i: int|
                0 <= i < chunks.len() ==> 0 < (#[trigger] chunks[i]).1 - chunks[i].0 <= size
        }),
    decreases count - start,
{
    if start < count && count - start > size {
        chunks_follow_each_other(start + size, count, size);
        let rest = chunks_from(start + size, count, size);
        let chunks = chunks_from(start, count, size);
        assert(chunks =~= seq![(start, start + size)] + rest);
        assert(chunks.last() == rest.last());
        assert forall|i: int| 0 <= i < chunks.len() - 1 implies (#[trigger] chunks[i]).1 == chunks[i
            + 1].0 by {
            if i > 0 {
                assert(chunks[i] == rest[i - 1] && chunks[i + 1] == rest[i]);
            }
        }
        assert forall|i: int| 0 <= i < chunks.len() implies 0 < (#[trigger] chunks[i]).1
            - chunks[i].0 <= size by {
            if i > 0 {
                assert(chunks[i] == rest[i - 1]);
            }
        }
    }
}

/// The chunks of candidates that are scored in one call each.
pub fn chunk_bounds(count: usize, size: usize) -> (result: Vec<(usize, usize)>)
    requires
        size > 0,
    ensures
        result@.map_values(|bounds: (usize, usize)| (bounds.0 as int, bounds.1 as int))
            == chunks_from(0, count as int, size as int),
        forall|i: int|
            0 <= i < result@.len() ==> (#[trigger] result@[i]).0 < result@[i].1 <= count
                && result@[i].1 - result@[i].0 <= size,
{
    let ghost view = |bounds: (usize, usize)| (bounds.0 as int, bounds.1 as int);
    let mut result: Vec<(usize, usize)> = Vec::new();
    let mut start: usize = 0;
    assert(result@.map_values(view) + chunks_from(0, count as int, size as int) =~= chunks_from(
        0,
        count as int,
        size as int,
    ));
    while start < count
        invariant
            size > 0,
            start <= count,
            view == (|bounds: (usize, usize)| (bounds.0 as int, bounds.1 as int)),
            result@.map_values(view) + chunks_from(start as int, count as int, size as int)
                == chunks_from(0, count as int, size as int),
            forall|i: int|
                0 <= i < result@.len() ==> (#[trigger] result@[i]).0 < result@[i].1 <= count
                    && result@[i].1 - result@[i].0 <= size,
        decreases count - start,
    {
        let end: usize = if count - start <= size {
            count
        } else {
            start + size
        };
        let ghost before = result@.map_values(view);
        result.push((start, end));
        proof {
            let rest = chunks_from(end as int, count as int, size as int);
            assert(result@.map_values(view) =~= before.push((start as int, end as int)));
            assert(chunks_from(start as int, count as int, size as int) =~= seq![
                (start as int, end as int),
            ] + rest);
            assert(result@.map_values(view) + rest =~= before + (seq![(start as int, end as int)]
                + rest));
        }
        start = end;
    }
    assert(chunks_from(start as int, count as int, size as int) =~= Seq::<(int, int)>::empty());
    assert(result@.map_values(view) =~= chunks_from(0, count as int, size as int));
    result
}

// ---------------------------------------------------------------------------
// Batches
// ---------------------------------------------------------------------------

/// One token of a batch: where it stands, which candidates it belongs to, and whether the
/// model has to answer at it.
#[derive(Debug, PartialEq, Eq)]
pub struct BatchToken {
    pub token: i32,
    pub position: i32,
    pub sequences: Vec<i32>,
    pub answered: bool,
}

/// The tokens of the prompt, which belong to every candidate; the model answers at the last.
pub fn prompt_batch(tokens: &[i32], sequences: usize) -> (result: Vec<BatchToken>)
    requires
        tokens@.len() <= MAX_POSITIONS,
        sequences <= 0x8000_0000,
    ensures
        result@.len() == tokens@.len(),
        forall|i: int|
            0 <= i < tokens@.len() ==> {
                &&& (#[trigger] result@[i]).token == tokens@[i]
                &&& result@[i].position == i
                &&& result@[i].sequences@ == Seq::new(sequences as nat, |s: int| s as i32)
                &&& result@[i].answered == (i == tokens@.len() - 1)
            },
{
    let mut result: Vec<BatchToken> = Vec::new();
    for index in 0..tokens.len()
        invariant
            tokens@.len() <= MAX_POSITIONS,
            sequences <= 0x8000_0000,
            result@.len() == index,
            forall|i: int|
                0 <= i < index ==> {
                    &&& (#[trigger] result@[i]).token == tokens@[i]
                    &&& result@[i].position == i
                    &&& result@[i].sequences@ == Seq::new(sequences as nat, |s: int| s as i32)
                    &&& result@[i].answered == (i == tokens@.len() - 1)
                },
    {
        let all: Vec<i32> = every_sequence(sequences);
        result.push(
            BatchToken {
                token: tokens[index],
                position: position(index),
                sequences: all,
                answered: index == tokens.len() - 1,
            },
        );
    }
    result
}

fn every_sequence(sequences: usize) -> (result: Vec<i32>)
    requires
        sequences <= 0x8000_0000,
    ensures
        result@ == Seq::new(sequences as nat, |s: int| s as i32),
{
    let mut result: Vec<i32> = Vec::new();
    for sequence in 0..sequences
        invariant
            sequences <= 0x8000_0000,
            result@ == Seq::new(sequence as nat, |s: int| s as i32),
    {
        result.push(sequence as i32);
        assert(result@ =~= Seq::new((sequence + 1) as nat, |s: int| s as i32));
    }
    result
}

/// The tokens of the candidates, each shared prefix once. The model answers at every one.
pub fn candidate_batch(trie: &CandidateTokenTrie, prompt_length: usize) -> (result: Vec<BatchToken>)
    requires
        forall|k: int|
            0 <= k < trie.nodes@.len() ==> 0 < (#[trigger] trie.nodes@[k]).depth
                && trie.nodes@[k].depth + prompt_length <= MAX_POSITIONS,
    ensures
        result@.len() == trie.nodes@.len(),
        forall|k: int|
            0 <= k < trie.nodes@.len() ==> {
                &&& (#[trigger] result@[k]).token == trie.nodes@[k].token
                &&& result@[k].position == prompt_length + trie.nodes@[k].depth - 1
                &&& result@[k].sequences@ == trie.nodes@[k].sequences@
                &&& result@[k].answered
            },
{
    let mut result: Vec<BatchToken> = Vec::new();
    for index in 0..trie.nodes.len()
        invariant
            forall|k: int|
                0 <= k < trie.nodes@.len() ==> 0 < (#[trigger] trie.nodes@[k]).depth
                    && trie.nodes@[k].depth + prompt_length <= MAX_POSITIONS,
            result@.len() == index,
            forall|k: int|
                0 <= k < index ==> {
                    &&& (#[trigger] result@[k]).token == trie.nodes@[k].token
                    &&& result@[k].position == prompt_length + trie.nodes@[k].depth - 1
                    &&& result@[k].sequences@ == trie.nodes@[k].sequences@
                    &&& result@[k].answered
                },
    {
        let depth: usize = trie.nodes[index].depth;
        let sequences: Vec<i32> = copied_numbers(&trie.nodes[index].sequences);
        result.push(
            BatchToken {
                token: trie.nodes[index].token,
                position: position(prompt_length + (depth - 1)),
                sequences,
                answered: true,
            },
        );
    }
    result
}

pub(crate) fn copied_numbers(numbers: &Vec<i32>) -> (result: Vec<i32>)
    ensures
        result@ == numbers@,
{
    let mut result: Vec<i32> = Vec::new();
    for index in 0..numbers.len()
        invariant
            result@ == numbers@.take(index as int),
    {
        result.push(numbers[index]);
        assert(result@ =~= numbers@.take(index + 1));
    }
    assert(numbers@.take(numbers@.len() as int) =~= numbers@);
    result
}

/// A token whose probability counts, and the row of the model's answer that it is read from.
/// `None` is the answer at the end of the prompt.
#[derive(Clone, Copy, Debug, PartialEq, Eq, Structural)]
pub struct ScoredToken {
    pub row: Option<usize>,
    pub token: i32,
}

/// The tokens that make up the score of a candidate: each of its tokens is read behind the
/// tokens before it, and the end of the text behind the last one. Rows of candidate tokens
/// start at `base`.
pub open spec fn scored_tokens(tokens: Seq<i32>, path: Seq<usize>, base: int, eos: i32) -> Seq<
    ScoredToken,
> {
    Seq::new(
        tokens.len() + 1,
        |i: int|
            ScoredToken {
                row: if i == 0 {
                    None
                } else {
                    Some((base + path[i - 1]) as usize)
                },
                token: if i < tokens.len() {
                    tokens[i]
                } else {
                    eos
                },
            },
    )
}

/// The tokens that make up the score of a candidate, the end of the text last. An empty
/// candidate has none: it cannot be scored.
pub fn score_plan(tokens: &[i32], path: &[usize], base: usize, eos: i32) -> (result: Vec<
    ScoredToken,
>)
    requires
        path@.len() == tokens@.len(),
        forall|i: int| 0 <= i < path@.len() ==> base + #[trigger] path@[i] <= usize::MAX,
    ensures
        result@ == (if tokens@.len() == 0 {
            Seq::empty()
        } else {
            scored_tokens(tokens@, path@, base as int, eos)
        }),
{
    let count: usize = tokens.len();
    let mut result: Vec<ScoredToken> = Vec::new();
    if count == 0 {
        return result;
    }
    let ghost owed = scored_tokens(tokens@, path@, base as int, eos);
    for index in 0..count
        invariant
            count == tokens@.len(),
            path@.len() == tokens@.len(),
            forall|i: int| 0 <= i < path@.len() ==> base + #[trigger] path@[i] <= usize::MAX,
            owed == scored_tokens(tokens@, path@, base as int, eos),
            result@ == owed.take(index as int),
    {
        let row: Option<usize> = if index == 0 {
            None
        } else {
            Some(base + path[index - 1])
        };
        result.push(ScoredToken { row, token: tokens[index] });
        assert(result@ =~= owed.take(index + 1));
    }
    result.push(ScoredToken { row: Some(base + path[count - 1]), token: eos });
    assert(result@ =~= owed);
    result
}

/// Every token of a candidate is read from the answer behind exactly the tokens before it.
pub proof fn scores_are_read_behind_the_tokens_before(
    tokens: Seq<i32>,
    path: Seq<usize>,
    prefixes: Seq<Seq<i32>>,
    base: int,
    eos: i32,
    index: int,
)
    requires
        path_spells(path, tokens, prefixes),
        path.len() == tokens.len(),
        0 < index <= tokens.len(),
        0 <= base,
        base + prefixes.len() <= usize::MAX,
    ensures
        ({
            let row = scored_tokens(tokens, path, base, eos)[index].row;
            row is Some && prefixes[row->0 - base] == tokens.take(index)
        }),
{
    assert(path[index - 1] < prefixes.len());
}

// ---------------------------------------------------------------------------
// Where the model would have gone another way
// ---------------------------------------------------------------------------

/// The first place at which the model prefers another token than the candidate's.
pub open spec fn mismatch_from(tokens: Seq<i32>, preferred: Seq<i32>, index: int) -> Option<int>
    decreases tokens.len() - index,
{
    if index < 0 || index >= tokens.len() {
        None
    } else if preferred[index] != tokens[index] {
        Some(index)
    } else {
        mismatch_from(tokens, preferred, index + 1)
    }
}

/// The first place at which the model prefers another token than the candidate's.
pub fn first_mismatch(tokens: &[i32], preferred: &[i32]) -> (result: Option<usize>)
    requires
        preferred@.len() >= tokens@.len(),
    ensures
        result is Some <==> mismatch_from(tokens@, preferred@, 0) is Some,
        result matches Some(index) ==> mismatch_from(tokens@, preferred@, 0) == Some(index as int)
            && index < tokens@.len(),
{
    for index in 0..tokens.len()
        invariant
            preferred@.len() >= tokens@.len(),
            mismatch_from(tokens@, preferred@, index as int) == mismatch_from(
                tokens@,
                preferred@,
                0,
            ),
    {
        if preferred[index] != tokens[index] {
            return Some(index);
        }
    }
    None
}

/// The tokens of the model's own way: the candidate's up to the mismatch, and the preferred
/// one, unless that is the end of the text.
pub fn preferred_prefix(tokens: &[i32], index: usize, preferred: i32, eos: i32) -> (result: (
    Vec<i32>,
    bool,
))
    requires
        index < tokens@.len(),
    ensures
        result.1 == (preferred == eos),
        result.0@ == (if preferred == eos {
            tokens@.take(index as int)
        } else {
            tokens@.take(index as int).push(preferred)
        }),
{
    let mut prefix: Vec<i32> = Vec::new();
    for number in 0..index
        invariant
            index < tokens@.len(),
            prefix@ == tokens@.take(number as int),
    {
        prefix.push(tokens[number]);
        assert(prefix@ =~= tokens@.take(number + 1));
    }
    if preferred != eos {
        prefix.push(preferred);
    }
    (prefix, preferred == eos)
}

// ---------------------------------------------------------------------------
// What the model is told
// ---------------------------------------------------------------------------

/// A prompt of contexts that the model sees whole holds the left context, the right context and the
/// reading, each behind its own mark, and ends with the mark before the answer. An empty context
/// leaves no mark.
pub proof fn a_prompt_holds_its_parts_in_order(
    context: Seq<char>,
    right: Seq<char>,
    input: Seq<char>,
)
    requires
        context.len() <= 40,
        right.len() <= 40,
    ensures
        context.len() > 0 && right.len() > 0 ==> prompt(context, right, input) == seq!['\u{EE02}']
            + context + seq!['\u{EE07}'] + right + seq!['\u{EE00}'] + input + seq!['\u{EE01}'],
        context.len() > 0 && right.len() == 0 ==> prompt(context, right, input)
            == seq!['\u{EE02}'] + context + seq!['\u{EE00}'] + input + seq!['\u{EE01}'],
        context.len() == 0 && right.len() > 0 ==> prompt(context, right, input)
            == seq!['\u{EE07}'] + right + seq!['\u{EE00}'] + input + seq!['\u{EE01}'],
        context.len() == 0 && right.len() == 0 ==> prompt(context, right, input)
            == seq!['\u{EE00}'] + input + seq!['\u{EE01}'],
{
    let found = prompt(context, right, input);
    if context.len() > 0 && right.len() > 0 {
        assert(found =~= seq!['\u{EE02}'] + context + seq!['\u{EE07}'] + right + seq!['\u{EE00}'] + input
            + seq!['\u{EE01}']);
    } else if context.len() > 0 {
        assert(found =~= seq!['\u{EE02}'] + context + seq!['\u{EE00}'] + input + seq!['\u{EE01}']);
    } else if right.len() > 0 {
        assert(found =~= seq!['\u{EE07}'] + right + seq!['\u{EE00}'] + input + seq!['\u{EE01}']);
    } else {
        assert(found =~= seq!['\u{EE00}'] + input + seq!['\u{EE01}']);
    }
}

/// Of a longer context the model sees the last forty characters before the reading, and the first
/// forty behind it.
pub proof fn a_prompt_keeps_what_is_next_to_the_reading(
    context: Seq<char>,
    right: Seq<char>,
    input: Seq<char>,
)
    ensures
        context.len() > 40 ==> prompt(context, right, input) == prompt(
            context.skip(context.len() - 40),
            right,
            input,
        ),
        right.len() > 40 ==> prompt(context, right, input) == prompt(context, right.take(40), input),
{
    if context.len() > 40 {
        assert(context_end(context.skip(context.len() - 40)) =~= context_end(context));
    }
    if right.len() > 40 {
        assert(context_start(right.take(40)) =~= context_start(right));
    }
}

/// A request is scored exactly if its prompt is not empty and, with the longest candidate behind it,
/// stays below the positions that the model knows.
pub proof fn every_candidate_fits_the_model(prompt_length: int, lengths: Seq<usize>)
    ensures
        fits_the_model(prompt_length, lengths) <==> 0 < prompt_length < 1024 && forall|i: int|
            0 <= i < lengths.len() ==> prompt_length + #[trigger] lengths[i] < 1024,
{
    the_longest_is_one_of_them(lengths);
}

proof fn the_longest_is_one_of_them(lengths: Seq<usize>)
    ensures
        longest(lengths) >= 0,
        forall|i: int| 0 <= i < lengths.len() ==> #[trigger] lengths[i] <= longest(lengths),
        longest(lengths) > 0 ==> exists|i: int|
            0 <= i < lengths.len() && #[trigger] lengths[i] == longest(lengths),
    decreases lengths.len(),
{
    if lengths.len() > 0 {
        let rest = lengths.drop_last();
        the_longest_is_one_of_them(rest);
        assert forall|i: int| 0 <= i < lengths.len() implies #[trigger] lengths[i] <= longest(
            lengths,
        ) by {
            if i < rest.len() {
                assert(rest[i] == lengths[i]);
            }
        }
        if longest(lengths) > 0 {
            if lengths.last() > longest(rest) {
                assert(lengths[lengths.len() - 1] == longest(lengths));
            } else {
                let i = choose|i: int| 0 <= i < rest.len() && #[trigger] rest[i] == longest(rest);
                assert(lengths[i] == longest(lengths));
            }
        }
    }
}

/// The score of a candidate is made of each of its tokens once, in order, and of the end of the
/// text behind them; the first is read at the end of the prompt.
pub proof fn a_score_is_made_of_every_token(
    tokens: Seq<i32>,
    path: Seq<usize>,
    base: int,
    eos: i32,
)
    ensures
        scored_tokens(tokens, path, base, eos).len() == tokens.len() + 1,
        scored_tokens(tokens, path, base, eos)[0].row is None,
        forall|i: int|
            0 <= i < tokens.len() ==> (#[trigger] scored_tokens(tokens, path, base, eos)[i]).token
                == tokens[i],
        scored_tokens(tokens, path, base, eos).last().token == eos,
{
}

/// The mismatch that is found is the first: before it the model prefers the candidate's tokens, at
/// it another one; where none is found it prefers all of them.
pub proof fn the_first_mismatch_is_found(tokens: Seq<i32>, preferred: Seq<i32>, index: int)
    requires
        0 <= index <= tokens.len() <= preferred.len(),
    ensures
        mismatch_from(tokens, preferred, index) matches Some(place) ==> index <= place < tokens.len()
            && preferred[place] != tokens[place] && forall|i: int|
            index <= i < place ==> #[trigger] preferred[i] == tokens[i],
        mismatch_from(tokens, preferred, index) is None ==> forall|i: int|
            index <= i < tokens.len() ==> #[trigger] preferred[i] == tokens[i],
    decreases tokens.len() - index,
{
    if index < tokens.len() && preferred[index] == tokens[index] {
        the_first_mismatch_is_found(tokens, preferred, index + 1);
    }
}

} // verus!
