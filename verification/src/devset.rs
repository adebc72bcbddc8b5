//! Development sets from pairs of texts in which a misconversion was corrected.

use crate::corpus::{copied_pairs, pairs, TextPair};
use crate::evaluation::{join_tokens, joined_readings, joined_surfaces};
use crate::kana::{any_ideograph, has_ideograph, hiragana_to_katakana, katakana_text};
use crate::order::TextSet;
use crate::sampling::{spread_over, spread_positions};
use crate::surface_annotation::{
    annotations, annotations_cover_the_text, derived_reading, SurfaceReadingIndex,
};
use crate::text::{
    characters, copied_texts, count_text, decimal, read_count, same_text, text_between, texts, unsigned_value,
};
use vstd::prelude::*;
use vstd::string::*;

verus! {

/// How many characters before the correction may belong to the window.
pub const MAXIMUM_CHARACTERS_BEFORE: usize = 25;

/// How many characters behind the correction may belong to the window.
pub const MAXIMUM_CHARACTERS_BEHIND: usize = 12;

/// The shortest window.
pub const MINIMUM_WINDOW: usize = 6;

/// The longest window.
pub const MAXIMUM_WINDOW: usize = 60;

/// What was corrected.
#[derive(Debug, PartialEq, Eq)]
pub struct TrainDiff {
    pub pre_str: String,
    pub post_str: String,
    pub category: String,
}

/// A text before and after its correction.
#[derive(Debug, PartialEq, Eq)]
pub struct TrainPair {
    pub pre_text: String,
    pub post_text: String,
    pub diffs: Vec<TrainDiff>,
}

/// An item of a development set.
#[derive(Debug, PartialEq, Eq)]
pub struct DevItem {
    pub source_split: String,
    pub index: String,
    pub context_text: String,
    pub input: String,
    pub expected_output: Vec<String>,
    pub original_text: String,
    pub annotated_tokens: Vec<(String, String)>,
}

/// An item of a development set as a mathematical value.
pub ghost struct DevItemView {
    pub source_split: Seq<char>,
    pub index: Seq<char>,
    pub context_text: Seq<char>,
    pub input: Seq<char>,
    pub expected_output: Seq<Seq<char>>,
    pub original_text: Seq<char>,
    pub annotated_tokens: Seq<TextPair>,
}

impl View for DevItem {
    type V = DevItemView;

    open spec fn view(&self) -> DevItemView {
        DevItemView {
            source_split: self.source_split@,
            index: self.index@,
            context_text: self.context_text@,
            input: self.input@,
            expected_output: texts(self.expected_output@),
            original_text: self.original_text@,
            annotated_tokens: pairs(self.annotated_tokens@),
        }
    }
}

/// The values of some items.
pub open spec fn item_views(items: Seq<DevItem>) -> Seq<DevItemView> {
    Seq::new(items.len(), |i: int| items[i]@)
}

// ---------------------------------------------------------------------------
// The changed region
// ---------------------------------------------------------------------------

/// Where two texts that agree up to `index` first differ, or where one of them ends.
pub open spec fn common_from(left: Seq<char>, right: Seq<char>, index: int) -> int
    decreases left.len() - index,
{
    if index < left.len() && index < right.len() && left[index] == right[index] {
        common_from(left, right, index + 1)
    } else {
        index
    }
}

/// How many characters two texts that agree on their last `count` ones have in common at the end.
pub open spec fn common_end(left: Seq<char>, right: Seq<char>, count: int) -> int
    decreases left.len() - count,
{
    if count < left.len() && count < right.len() && left[left.len() - 1 - count]
        == right[right.len() - 1 - count] {
        common_end(left, right, count + 1)
    } else {
        count
    }
}

/// The length of the common end, which does not reach into the common start.
pub open spec fn kept_end(pre: Seq<char>, post: Seq<char>) -> int {
    let shorter = if pre.len() <= post.len() {
        pre.len() as int
    } else {
        post.len() as int
    };
    let room = shorter - common_from(pre, post, 0);
    if common_end(pre, post, 0) <= room {
        common_end(pre, post, 0)
    } else {
        room
    }
}

/// The region of `post` that differs from `pre`, for one contiguous edit.
pub open spec fn changed_region(pre: Seq<char>, post: Seq<char>) -> Option<(int, int)> {
    let start = common_from(pre, post, 0);
    let end = post.len() - kept_end(pre, post);
    if pre == post || start >= end {
        None
    } else {
        Some((start, end))
    }
}

proof fn common_start_agrees(left: Seq<char>, right: Seq<char>, index: int)
    requires
        0 <= index <= left.len(),
        index <= right.len(),
        left.take(index) == right.take(index),
    ensures
        ({
            let end = common_from(left, right, index);
            &&& index <= end <= left.len()
            &&& end <= right.len()
            &&& left.take(end) == right.take(end)
            &&& end < left.len() && end < right.len() ==> left[end] != right[end]
        }),
    decreases left.len() - index,
{
    if index < left.len() && index < right.len() && left[index] == right[index] {
        assert(left.take(index + 1) =~= left.take(index).push(left[index]));
        assert(right.take(index + 1) =~= right.take(index).push(right[index]));
        common_start_agrees(left, right, index + 1);
    }
}

proof fn common_end_agrees(left: Seq<char>, right: Seq<char>, count: int)
    requires
        0 <= count <= left.len(),
        count <= right.len(),
        forall|i: int|
            1 <= i <= count ==> #[trigger] left[left.len() - i] == right[right.len() - i],
    ensures
        ({
            let end = common_end(left, right, count);
            &&& count <= end <= left.len()
            &&& end <= right.len()
            &&& forall|i: int|
                1 <= i <= end ==> #[trigger] left[left.len() - i] == right[right.len() - i]
        }),
    decreases left.len() - count,
{
    if count < left.len() && count < right.len() && left[left.len() - 1 - count]
        == right[right.len() - 1 - count] {
        common_end_agrees(left, right, count + 1);
    }
}

/// Outside the changed region the texts agree, and the region starts at the first difference.
pub proof fn texts_agree_outside_the_region(pre: Seq<char>, post: Seq<char>)
    requires
        changed_region(pre, post) is Some,
    ensures
        ({
            let (start, end) = changed_region(pre, post)->0;
            let kept = post.len() - end;
            &&& 0 <= start < end <= post.len()
            &&& start + kept <= pre.len()
            &&& pre.take(start) == post.take(start)
            &&& pre.skip(pre.len() - kept) == post.skip(end)
            &&& start < pre.len() ==> pre[start] != post[start]
        }),
{
    assert(pre.take(0) =~= post.take(0));
    common_start_agrees(pre, post, 0);
    common_end_agrees(pre, post, 0);
    let (start, end) = changed_region(pre, post)->0;
    let kept = post.len() - end;
    assert forall|i: int| 0 <= i < kept implies pre.skip(pre.len() - kept)[i] == post.skip(
        end,
    )[i] by {
        assert(pre[pre.len() - (kept - i)] == post[post.len() - (kept - i)]);
    }
    assert(pre.skip(pre.len() - kept) =~= post.skip(end));
}

/// The region of `post` that differs from `pre`, for one contiguous edit.
pub fn diff_span(pre: &[char], post: &[char]) -> (result: Option<(usize, usize)>)
    ensures
        result is Some <==> changed_region(pre@, post@) is Some,
        result matches Some(span) ==> changed_region(pre@, post@) == Some(
            (span.0 as int, span.1 as int),
        ),
{
    let shorter: usize = if pre.len() <= post.len() {
        pre.len()
    } else {
        post.len()
    };
    proof {
        assert(pre@.take(0) =~= post@.take(0));
        common_start_agrees(pre@, post@, 0);
        common_end_agrees(pre@, post@, 0);
    }
    let mut start: usize = 0;
    while start < shorter && pre[start] == post[start]
        invariant
            shorter <= pre@.len(),
            shorter <= post@.len(),
            shorter == pre@.len() || shorter == post@.len(),
            start <= shorter,
            common_from(pre@, post@, 0) == common_from(pre@, post@, start as int),
        decreases shorter - start,
    {
        start += 1;
    }
    if start == pre.len() && start == post.len() {
        assert(pre@ =~= post@) by {
            assert(pre@.take(start as int) =~= pre@);
            assert(post@.take(start as int) =~= post@);
        }
        return None;
    }
    assert(pre@ != post@);
    let room: usize = shorter - start;
    let mut kept: usize = 0;
    while kept < room && pre[pre.len() - 1 - kept] == post[post.len() - 1 - kept]
        invariant
            shorter <= pre@.len(),
            shorter <= post@.len(),
            kept <= room <= shorter,
            common_end(pre@, post@, 0) == common_end(pre@, post@, kept as int),
        decreases room - kept,
    {
        kept += 1;
    }
    proof {
        if kept == room {
            end_is_no_shorter(pre@, post@, kept as int);
        }
    }
    assert(kept == kept_end(pre@, post@));
    let end: usize = post.len() - kept;
    if start < end {
        Some((start, end))
    } else {
        None
    }
}

proof fn end_is_no_shorter(left: Seq<char>, right: Seq<char>, count: int)
    ensures
        common_end(left, right, count) >= count,
    decreases left.len() - count,
{
    if count < left.len() && count < right.len() && left[left.len() - 1 - count]
        == right[right.len() - 1 - count] {
        end_is_no_shorter(left, right, count + 1);
    }
}

// ---------------------------------------------------------------------------
// The window
// ---------------------------------------------------------------------------

/// The characters that end a sentence.
pub open spec fn ends_sentence(character: char) -> bool {
    character == '。' || character == '！' || character == '？'
}

/// The characters that part clauses.
pub open spec fn parts_clauses(character: char) -> bool {
    character == '、' || character == '。' || character == '！' || character == '？' || character
        == '「' || character == '」' || character == '『' || character == '』' || character == '（'
        || character == '）' || character == '：' || character == '；'
}

pub fn is_clause_boundary(character: char) -> (result: bool)
    ensures
        result == parts_clauses(character),
{
    character == '、' || character == '。' || character == '！' || character == '？' || character
        == '「' || character == '」' || character == '『' || character == '』' || character == '（'
        || character == '）' || character == '：' || character == '；'
}

/// Where the sentence begins that `index` belongs to.
pub open spec fn sentence_begin(text: Seq<char>, index: int) -> int
    decreases index,
{
    if index <= 0 {
        0
    } else if ends_sentence(text[index - 1]) {
        index
    } else {
        sentence_begin(text, index - 1)
    }
}

fn sentence_start(text: &[char], index: usize) -> (result: usize)
    requires
        index <= text@.len(),
    ensures
        result == sentence_begin(text@, index as int),
        result <= index,
{
    let mut start: usize = index;
    while start > 0
        invariant
            start <= index <= text@.len(),
            sentence_begin(text@, index as int) == sentence_begin(text@, start as int),
        decreases start,
    {
        let before: char = text[start - 1];
        if before == '。' || before == '！' || before == '？' {
            return start;
        }
        start -= 1;
    }
    start
}

/// How far a window reaches before `start`: over one clause boundary at most, not over the
/// second one, not beyond the sentence, and by no more than `steps` characters.
pub open spec fn reaches_back(
    text: Seq<char>,
    start: int,
    sentence: int,
    boundaries: int,
    steps: int,
) -> int
    decreases steps,
{
    if steps <= 0 || start <= sentence {
        start
    } else if !parts_clauses(text[start - 1]) {
        reaches_back(text, start - 1, sentence, boundaries, steps - 1)
    } else if boundaries >= 1 {
        start
    } else {
        reaches_back(text, start - 1, sentence, boundaries + 1, steps - 1)
    }
}

/// How far a window reaches behind `end`: to the next clause boundary, by no more than `steps`
/// characters.
pub open spec fn reaches_on(text: Seq<char>, end: int, steps: int) -> int
    decreases steps,
{
    if steps <= 0 || end >= text.len() || parts_clauses(text[end]) {
        end
    } else {
        reaches_on(text, end + 1, steps - 1)
    }
}

/// Where the window of a correction starts.
pub fn window_start(post: &[char], diff_start: usize, sentence_start: usize) -> (result: usize)
    requires
        sentence_start <= diff_start <= post@.len(),
    ensures
        result == reaches_back(
            post@,
            diff_start as int,
            sentence_start as int,
            0,
            MAXIMUM_CHARACTERS_BEFORE as int,
        ),
        sentence_start <= result <= diff_start,
{
    let mut start: usize = diff_start;
    let mut boundaries: usize = 0;
    let mut steps: usize = MAXIMUM_CHARACTERS_BEFORE;
    while steps > 0
        invariant
            sentence_start <= start <= diff_start <= post@.len(),
            boundaries <= 1,
            reaches_back(
                post@,
                diff_start as int,
                sentence_start as int,
                0,
                MAXIMUM_CHARACTERS_BEFORE as int,
            ) == reaches_back(
                post@,
                start as int,
                sentence_start as int,
                boundaries as int,
                steps as int,
            ),
        decreases steps,
    {
        if start == sentence_start {
            return start;
        }
        if is_clause_boundary(post[start - 1]) {
            if boundaries >= 1 {
                return start;
            }
            boundaries += 1;
        }
        start -= 1;
        steps -= 1;
    }
    start
}

/// Where the window of a correction ends.
pub fn window_end(post: &[char], diff_end: usize) -> (result: usize)
    requires
        diff_end <= post@.len(),
    ensures
        result == reaches_on(post@, diff_end as int, MAXIMUM_CHARACTERS_BEHIND as int),
        diff_end <= result <= post@.len(),
{
    let mut end: usize = diff_end;
    let mut steps: usize = MAXIMUM_CHARACTERS_BEHIND;
    while steps > 0
        invariant
            diff_end <= end <= post@.len(),
            reaches_on(post@, diff_end as int, MAXIMUM_CHARACTERS_BEHIND as int) == reaches_on(
                post@,
                end as int,
                steps as int,
            ),
        decreases steps,
    {
        if end == post.len() || is_clause_boundary(post[end]) {
            return end;
        }
        end += 1;
        steps -= 1;
    }
    end
}

// ---------------------------------------------------------------------------
// Items
// ---------------------------------------------------------------------------

/// Whether a pair holds one correction, of a misconverted kanji.
pub open spec fn is_conversion_error(pair: TrainPair) -> bool {
    &&& pair.diffs@.len() == 1
    &&& pair.diffs@[0].category@ == "kanji-conversion_a"@
    &&& pair.diffs@[0].pre_str@.len() > 0
    &&& pair.diffs@[0].post_str@.len() > 0
}

/// Whether both surfaces of a correction have readings, and different ones.
pub open spec fn readings_differ(dictionary: Set<TextPair>, diff: TrainDiff) -> bool {
    let left = derived_reading(dictionary, diff.pre_str@);
    let right = derived_reading(dictionary, diff.post_str@);
    left is Some && right is Some && left != right
}

/// The item of a corrected text: the window around the changed region `span` with its reading.
/// Every second item keeps the sentence before the window as its context.
pub open spec fn window_item(
    pair: TrainPair,
    span: (int, int),
    line_number: nat,
    accepted: nat,
    dictionary: Set<TextPair>,
) -> Option<DevItemView> {
    let post = pair.post_text@;
    let sentence = sentence_begin(post, span.0);
    let start = reaches_back(post, span.0, sentence, 0, MAXIMUM_CHARACTERS_BEFORE as int);
    let end = reaches_on(post, span.1, MAXIMUM_CHARACTERS_BEHIND as int);
    let window = post.subrange(start, end);
    let tokens = annotations(dictionary, window);
    if !(MINIMUM_WINDOW <= end - start <= MAXIMUM_WINDOW) || !has_ideograph(window) {
        None
    } else if tokens is None || readings_differ(dictionary, pair.diffs@[0]) {
        None
    } else {
        Some(
            DevItemView {
                source_split: "jwtd-v2-train"@,
                index: decimal(line_number),
                context_text: if accepted % 2 == 0 {
                    Seq::empty()
                } else {
                    post.subrange(sentence, start)
                },
                input: katakana_text(joined_readings(tokens->0)),
                expected_output: seq![window],
                original_text: post,
                annotated_tokens: tokens->0,
            },
        )
    }
}

/// The item of a corrected text, if it makes one.
pub open spec fn item_of(
    pair: TrainPair,
    line_number: nat,
    accepted: nat,
    dictionary: Set<TextPair>,
) -> Option<DevItemView> {
    match changed_region(pair.pre_text@, pair.post_text@) {
        Some(span) => if is_conversion_error(pair) {
            window_item(pair, span, line_number, accepted, dictionary)
        } else {
            None
        },
        None => None,
    }
}

/// What is expected of an item is the text that its tokens make up, and its input is their
/// reading.
pub proof fn items_read_as_their_tokens(
    pair: TrainPair,
    line_number: nat,
    accepted: nat,
    dictionary: Set<TextPair>,
)
    ensures
        item_of(pair, line_number, accepted, dictionary) matches Some(item) ==> {
            &&& item.expected_output == seq![joined_surfaces(item.annotated_tokens)]
            &&& item.input == katakana_text(joined_readings(item.annotated_tokens))
        },
{
    if let Some(item) = item_of(pair, line_number, accepted, dictionary) {
        annotations_cover_the_text(dictionary, item.expected_output[0]);
    }
}

fn same_readings(readings: &SurfaceReadingIndex, diff: &TrainDiff) -> (result: bool)
    requires
        readings.well_formed(),
    ensures
        result == !readings_differ(readings@, *diff),
{
    match (readings.reading(diff.pre_str.as_str()), readings.reading(diff.post_str.as_str())) {
        (Some(left), Some(right)) => same_text(left.as_str(), right.as_str()),
        _ => true,
    }
}

/// The item of a corrected text, if it makes one.
pub fn build_item(
    pair: &TrainPair,
    line_number: usize,
    accepted_count: usize,
    readings: &SurfaceReadingIndex,
) -> (result: Option<DevItem>)
    requires
        readings.well_formed(),
    ensures
        result is Some <==> item_of(
            *pair,
            line_number as nat,
            accepted_count as nat,
            readings@,
        ) is Some,
        result matches Some(item) ==> item_of(
            *pair,
            line_number as nat,
            accepted_count as nat,
            readings@,
        ) == Some(item@),
{
    if pair.diffs.len() != 1 {
        return None;
    }
    let diff: &TrainDiff = &pair.diffs[0];
    if !same_text(diff.category.as_str(), "kanji-conversion_a") || diff.pre_str.as_str().is_empty()
        || diff.post_str.as_str().is_empty() {
        return None;
    }
    let pre: Vec<char> = characters(pair.pre_text.as_str());
    let post: Vec<char> = characters(pair.post_text.as_str());
    let (diff_start, diff_end) = match diff_span(pre.as_slice(), post.as_slice()) {
        Some(span) => span,
        None => {
            return None;
        },
    };
    proof {
        texts_agree_outside_the_region(pre@, post@);
    }
    let sentence: usize = sentence_start(post.as_slice(), diff_start);
    let start: usize = window_start(post.as_slice(), diff_start, sentence);
    let end: usize = window_end(post.as_slice(), diff_end);
    let span: String = text_between(post.as_slice(), start, end);
    let length: usize = end - start;
    if length < MINIMUM_WINDOW || length > MAXIMUM_WINDOW || !any_ideograph(span.as_str()) {
        return None;
    }
    let tokens: Vec<(String, String)> = match readings.annotate(span.as_str()) {
        Some(tokens) => tokens,
        None => {
            return None;
        },
    };
    let (_, reading) = join_tokens(tokens.as_slice());
    if !same_readings(readings, diff) {
        return None;
    }
    let context: String = if accepted_count % 2 == 0 {
        String::new()
    } else {
        text_between(post.as_slice(), sentence, start)
    };
    let mut expected: Vec<String> = Vec::new();
    expected.push(span);
    let item: DevItem = DevItem {
        source_split: "jwtd-v2-train".to_owned(),
        index: count_text(line_number),
        context_text: context,
        input: hiragana_to_katakana(reading.as_str()),
        expected_output: expected,
        original_text: pair.post_text.clone(),
        annotated_tokens: tokens,
    };
    assert(texts(expected@) =~= seq![span@]);
    assert(item.context_text@ =~= if accepted_count % 2 == 0 {
        Seq::empty()
    } else {
        post@.subrange(sentence as int, start as int)
    });
    Some(item)
}

/// The items that were accepted, and the windows that were seen.
pub type Accepted = (Seq<DevItemView>, Set<Seq<char>>);

/// What is accepted after the first `count` lines, `None` standing for a line that is no pair. A
/// window that was seen before is not accepted again.
pub open spec fn accepted_before(
    rows: Seq<Option<TrainPair>>,
    dictionary: Set<TextPair>,
    count: int,
) -> Accepted
    decreases count,
{
    if count <= 0 {
        (Seq::empty(), Set::empty())
    } else {
        let state = accepted_before(rows, dictionary, count - 1);
        match rows[count - 1] {
            None => state,
            Some(pair) => match item_of(pair, (count - 1) as nat, state.0.len(), dictionary) {
                None => state,
                Some(item) => if state.1.contains(item.expected_output[0]) {
                    state
                } else {
                    (state.0.push(item), state.1.insert(item.expected_output[0]))
                },
            },
        }
    }
}

/// The items of the lines of a corpus, `None` standing for a line that is no pair.
pub fn accept_items(rows: &[Option<TrainPair>], readings: &SurfaceReadingIndex) -> (result: Vec<
    DevItem,
>)
    requires
        readings.well_formed(),
    ensures
        item_views(result@) == accepted_before(rows@, readings@, rows@.len() as int).0,
{
    let mut accepted: Vec<DevItem> = Vec::new();
    let mut seen: TextSet = TextSet::new();
    assert(item_views(accepted@) =~= Seq::<DevItemView>::empty());
    for index in 0..rows.len()
        invariant
            readings.well_formed(),
            seen.well_formed(),
            accepted_before(rows@, readings@, index as int) == (item_views(accepted@), seen@),
    {
        assert(item_views(accepted@).len() == accepted@.len());
        match &rows[index] {
            None => {},
            Some(pair) => match build_item(pair, index, accepted.len(), readings) {
                None => {},
                Some(item) => {
                    assert(item@.expected_output.len() == 1);
                    assert(texts(item.expected_output@).len() == item.expected_output@.len());
                    assert(item@.expected_output[0] == item.expected_output@[0]@);
                    if seen.insert(item.expected_output[0].as_str()) {
                        let ghost before = item_views(accepted@);
                        let ghost view = item@;
                        accepted.push(item);
                        assert(item_views(accepted@) =~= before.push(view));
                    } else {
                        assert(seen@ =~= accepted_before(rows@, readings@, index as int).1);
                    }
                },
            },
        }
    }
    accepted
}

// ---------------------------------------------------------------------------
// Selection
// ---------------------------------------------------------------------------

/// Whether an item with this index belongs to a selection of partitions by line number.
pub open spec fn is_selected(
    index: Seq<char>,
    partition_count: int,
    partition_index: Option<usize>,
    exclude_partition_index: Option<usize>,
) -> bool {
    let selected = if partition_index is Some {
        partition_index
    } else {
        exclude_partition_index
    };
    match selected {
        None => true,
        Some(selected) => match unsigned_value(index) {
            Some(line) => line <= usize::MAX && (exclude_partition_index is Some) != (line as int
                % partition_count == selected),
            None => false,
        },
    }
}

/// The items of the first `count` that are selected.
pub open spec fn selected_items(
    items: Seq<DevItemView>,
    partition_count: int,
    partition_index: Option<usize>,
    exclude_partition_index: Option<usize>,
) -> Seq<DevItemView> {
    items.filter(
        |item: DevItemView|
            is_selected(item.index, partition_count, partition_index, exclude_partition_index),
    )
}

/// A partition and what is left without it hold each numbered item once between them.
pub proof fn partitions_complement_each_other(
    index: Seq<char>,
    partition_count: int,
    partition: usize,
)
    requires
        partition_count > 0,
        unsigned_value(index) is Some,
        unsigned_value(index)->0 <= usize::MAX,
    ensures
        is_selected(index, partition_count, Some(partition), None) != is_selected(
            index,
            partition_count,
            None,
            Some(partition),
        ),
{
}

/// The items of a partition of the lines, or those outside one.
pub fn partition_items(
    items: Vec<DevItem>,
    partition_count: usize,
    partition_index: Option<usize>,
    exclude_partition_index: Option<usize>,
) -> (result: Vec<DevItem>)
    requires
        partition_index is Some || exclude_partition_index is Some ==> partition_count > 0,
    ensures
        item_views(result@) == selected_items(
            item_views(items@),
            partition_count as int,
            partition_index,
            exclude_partition_index,
        ),
{
    broadcast use vstd::seq_lib::group_filter_ensures;

    let ghost all = item_views(items@);
    let ghost chosen = |item: DevItemView|
        is_selected(item.index, partition_count as int, partition_index, exclude_partition_index);
    let selected: Option<usize> = match partition_index {
        Some(index) => Some(index),
        None => exclude_partition_index,
    };
    let exclude: bool = exclude_partition_index.is_some();
    let mut reversed: Vec<DevItem> = Vec::new();
    let mut rest: Vec<DevItem> = items;
    let ghost given = rest@;
    while rest.len() > 0
        invariant
            rest@ == given.take(rest@.len() as int),
            rest@.len() + reversed@.len() == given.len(),
            forall|i: int|
                0 <= i < reversed@.len() ==> #[trigger] reversed@[i] == given[given.len() - 1 - i],
        decreases rest@.len(),
    {
        let ghost before = rest@;
        match rest.pop() {
            Some(item) => {
                assert(item == given[before.len() - 1]);
                assert(rest@ =~= given.take(rest@.len() as int));
                reversed.push(item);
            },
            None => {},
        }
    }
    let mut result: Vec<DevItem> = Vec::new();
    let count: usize = reversed.len();
    proof {
        assert(all.take(0) =~= Seq::<DevItemView>::empty());
        reveal(Seq::filter);
        assert(item_views(result@) =~= all.take(0).filter(chosen));
    }
    for index in 0..count
        invariant
            count == given.len(),
            all == item_views(given),
            selected == (if partition_index is Some {
                partition_index
            } else {
                exclude_partition_index
            }),
            exclude == (exclude_partition_index is Some),
            selected is Some ==> partition_count > 0,
            chosen == |item: DevItemView|
                is_selected(
                    item.index,
                    partition_count as int,
                    partition_index,
                    exclude_partition_index,
                ),
            reversed@.len() == count - index,
            forall|i: int|
                0 <= i < reversed@.len() ==> #[trigger] reversed@[i] == given[given.len() - 1 - i],
            item_views(result@) == all.take(index as int).filter(chosen),
    {
        let ghost before = item_views(result@);
        assert(reversed@.last() == given[index as int]);
        assert(all.take(index + 1).drop_last() =~= all.take(index as int));
        assert(all.take(index + 1).last() == given[index as int]@);
        proof {
            reveal(Seq::filter);
        }
        if let Some(item) = reversed.pop() {
            let keep: bool = match selected {
                None => true,
                Some(place) => match read_count(item.index.as_str()) {
                    Some(line) => exclude != (line % partition_count == place),
                    None => false,
                },
            };
            assert(keep == chosen(item@));
            if keep {
                let ghost view = item@;
                result.push(item);
                assert(item_views(result@) =~= before.push(view));
            }
        }
    }
    assert(all.take(all.len() as int) =~= all);
    result
}

fn copied_item(item: &DevItem) -> (result: DevItem)
    ensures
        result@ == item@,
{
    DevItem {
        source_split: item.source_split.clone(),
        index: item.index.clone(),
        context_text: item.context_text.clone(),
        input: item.input.clone(),
        expected_output: copied_texts(item.expected_output.as_slice()),
        original_text: item.original_text.clone(),
        annotated_tokens: copied_pairs(&item.annotated_tokens),
    }
}

/// Items that spread evenly over all of them, so that no part of the corpus dominates; all of
/// them if there are no more than `count`.
pub fn sample_evenly(items: Vec<DevItem>, count: usize) -> (result: Vec<DevItem>)
    ensures
        item_views(result@) == spread_positions(items@.len(), count as nat).map_values(
            |place: int| item_views(items@)[place],
        ),
{
    let positions: Vec<usize> = spread_over(items.len(), count);
    let ghost owed = spread_positions(items@.len(), count as nat);
    assert(positions@.len() == owed.len());
    let mut result: Vec<DevItem> = Vec::new();
    for index in 0..positions.len()
        invariant
            positions@.map_values(|position: usize| position as int) == owed,
            positions@.len() == owed.len(),
            forall|i: int| 0 <= i < positions@.len() ==> #[trigger] positions@[i] < items@.len(),
            result@.len() == index,
            forall|i: int|
                0 <= i < index ==> #[trigger] item_views(result@)[i] == item_views(
                    items@,
                )[owed[i]],
    {
        let place: usize = positions[index];
        assert(owed[index as int] == positions@.map_values(
            |position: usize| position as int,
        )[index as int]);
        let ghost before = item_views(result@);
        result.push(copied_item(&items[place]));
        assert(item_views(result@) =~= before.push(item_views(items@)[place as int]));
    }
    assert(item_views(result@) =~= owed.map_values(|place: int| item_views(items@)[place]));
    result
}

// ---------------------------------------------------------------------------
// Annotated corpus
// ---------------------------------------------------------------------------

/// Some tokens on a line: `surface/reading`, with spaces between them.
pub open spec fn token_line(tokens: Seq<TextPair>) -> Seq<char>
    decreases tokens.len(),
{
    if tokens.len() == 0 {
        Seq::empty()
    } else {
        let before = token_line(tokens.drop_last());
        let separated = if tokens.len() > 1 {
            before + " "@
        } else {
            before
        };
        separated + tokens.last().0 + "/"@ + tokens.last().1
    }
}

/// Writes tokens as they stand on a line of an annotated corpus.
pub fn write_tokens(output: &mut String, tokens: &[(String, String)])
    ensures
        final(output)@ == old(output)@ + token_line(pairs(tokens@)),
{
    let ghost all = pairs(tokens@);
    let mut line: String = String::new();
    assert(all.take(0) =~= Seq::<TextPair>::empty());
    for index in 0..tokens.len()
        invariant
            all == pairs(tokens@),
            line@ == token_line(all.take(index as int)),
    {
        assert(all.take(index + 1).drop_last() =~= all.take(index as int));
        if index > 0 {
            line.append(" ");
        }
        line.append(tokens[index].0.as_str());
        line.append("/");
        line.append(tokens[index].1.as_str());
    }
    assert(all.take(all.len() as int) =~= all);
    output.append(line.as_str());
}

/// An annotated corpus: a line for each item.
pub open spec fn corpus_lines(items: Seq<DevItemView>) -> Seq<char>
    decreases items.len(),
{
    if items.len() == 0 {
        Seq::empty()
    } else {
        corpus_lines(items.drop_last()) + token_line(items.last().annotated_tokens) + "\n"@
    }
}

/// The items as an annotated corpus.
pub fn annotated_corpus(items: &[DevItem]) -> (result: String)
    ensures
        result@ == corpus_lines(item_views(items@)),
{
    let ghost all = item_views(items@);
    let mut output: String = String::new();
    assert(all.take(0) =~= Seq::<DevItemView>::empty());
    for index in 0..items.len()
        invariant
            all == item_views(items@),
            output@ == corpus_lines(all.take(index as int)),
    {
        assert(all.take(index + 1).drop_last() =~= all.take(index as int));
        write_tokens(&mut output, items[index].annotated_tokens.as_slice());
        output.append("\n");
    }
    assert(all.take(all.len() as int) =~= all);
    output
}

// ---------------------------------------------------------------------------
// Where windows begin and end
// ---------------------------------------------------------------------------

/// A sentence begins behind the nearest `。`, `！` or `？`, or at the start of the text.
pub proof fn a_sentence_begins_behind_the_last_end(text: Seq<char>, index: int)
    requires
        0 <= index <= text.len(),
    ensures
        ({
            let begin = sentence_begin(text, index);
            &&& 0 <= begin <= index
            &&& begin > 0 ==> text[begin - 1] == '。' || text[begin - 1] == '！' || text[begin - 1]
                == '？'
            &&& forall|i: int|
                begin <= i < index ==> (#[trigger] text[i]) != '。' && text[i] != '！' && text[i]
                    != '？'
        }),
    decreases index,
{
    if index > 0 && !ends_sentence(text[index - 1]) {
        a_sentence_begins_behind_the_last_end(text, index - 1);
    }
}

/// Whether a clause boundary stands from `low` up to `high`.
pub open spec fn holds_boundary(text: Seq<char>, low: int, high: int) -> bool {
    exists|i: int| low <= i < high && parts_clauses(#[trigger] text[i])
}

/// Whether two clause boundaries stand from `low` up to `high`.
pub open spec fn holds_two_boundaries(text: Seq<char>, low: int, high: int) -> bool {
    exists|i: int, j: int|
        low <= i < j < high && parts_clauses(#[trigger] text[i]) && parts_clauses(#[trigger] text[j])
}

/// A window reaches back over at most 25 characters and one clause boundary, not beyond the sentence;
/// and it stops at nothing else.
pub proof fn a_window_reaches_back_over_one_boundary(
    text: Seq<char>,
    start: int,
    sentence: int,
    steps: int,
)
    requires
        0 <= sentence <= start <= text.len(),
        0 <= steps,
    ensures
        ({
            let found = reaches_back(text, start, sentence, 0, steps);
            &&& sentence <= found <= start && start - found <= steps
            &&& !holds_two_boundaries(text, found, start)
            &&& found == sentence || start - found == steps || (parts_clauses(text[found - 1])
                && holds_boundary(text, found, start))
        }),
        MAXIMUM_CHARACTERS_BEFORE == 25,
    decreases steps,
{
    if steps > 0 && start > sentence {
        if !parts_clauses(text[start - 1]) {
            a_window_reaches_back_over_one_boundary(text, start - 1, sentence, steps - 1);
            let found = reaches_back(text, start, sentence, 0, steps);
            if holds_two_boundaries(text, found, start) {
                let (i, j) = choose|i: int, j: int|
                    found <= i < j < start && parts_clauses(#[trigger] text[i]) && parts_clauses(
                        #[trigger] text[j],
                    );
                assert(j < start - 1);
                assert(holds_two_boundaries(text, found, start - 1));
            }
            if holds_boundary(text, found, start - 1) {
                let i = choose|i: int| found <= i < start - 1 && parts_clauses(#[trigger] text[i]);
                assert(parts_clauses(text[i]));
            }
        } else {
            no_second_boundary_is_crossed(text, start - 1, sentence, steps - 1);
            assert(parts_clauses(text[start - 1]));
        }
    }
}

proof fn no_second_boundary_is_crossed(text: Seq<char>, start: int, sentence: int, steps: int)
    requires
        0 <= sentence <= start <= text.len(),
        0 <= steps,
    ensures
        ({
            let found = reaches_back(text, start, sentence, 1, steps);
            &&& sentence <= found <= start && start - found <= steps
            &&& forall|i: int| found <= i < start ==> !parts_clauses(#[trigger] text[i])
            &&& found == sentence || start - found == steps || parts_clauses(text[found - 1])
        }),
    decreases steps,
{
    if steps > 0 && start > sentence && !parts_clauses(text[start - 1]) {
        no_second_boundary_is_crossed(text, start - 1, sentence, steps - 1);
    }
}

/// A window reaches on to the next clause boundary, over at most 12 characters; and it stops at
/// nothing else.
pub proof fn a_window_reaches_on_to_a_boundary(text: Seq<char>, end: int, steps: int)
    requires
        0 <= end <= text.len(),
        0 <= steps,
    ensures
        ({
            let found = reaches_on(text, end, steps);
            &&& end <= found <= text.len() && found - end <= steps
            &&& forall|i: int| end <= i < found ==> !parts_clauses(#[trigger] text[i])
            &&& found == text.len() || found - end == steps || parts_clauses(text[found])
        }),
        MAXIMUM_CHARACTERS_BEHIND == 12,
    decreases steps,
{
    if steps > 0 && end < text.len() && !parts_clauses(text[end]) {
        a_window_reaches_on_to_a_boundary(text, end + 1, steps - 1);
    }
}

/// An item is a piece of six to 60 characters of the corrected text around the change, with a kanji
/// in it. Its number is that of the line. Its context is empty for every item with an even place; for
/// the others it is what stands before the piece in the text.
pub proof fn an_item_is_a_window_around_the_change(
    pair: TrainPair,
    line_number: nat,
    accepted: nat,
    dictionary: Set<TextPair>,
)
    requires
        item_of(pair, line_number, accepted, dictionary) is Some,
    ensures
        ({
            let item = item_of(pair, line_number, accepted, dictionary)->0;
            let post = pair.post_text@;
            let (from, to) = changed_region(pair.pre_text@, post)->0;
            let window = item.expected_output[0];
            &&& pair.diffs@.len() == 1 && pair.diffs@[0].category@ == "kanji-conversion_a"@
            &&& pair.diffs@[0].pre_str@.len() > 0 && pair.diffs@[0].post_str@.len() > 0
            &&& item.source_split == "jwtd-v2-train"@ && item.index == decimal(line_number)
            &&& item.original_text == post && item.expected_output.len() == 1
            &&& 6 <= window.len() <= 60 && has_ideograph(window)
            &&& annotations(dictionary, window) == Some(item.annotated_tokens)
            &&& item.input == katakana_text(joined_readings(item.annotated_tokens))
            &&& exists|start: int|
                0 <= start <= from && to <= start + window.len() <= post.len() && #[trigger] post.subrange(
                    start,
                    start + window.len(),
                ) == window && (accepted % 2 == 1 ==> item.context_text == post.subrange(
                    sentence_begin(post, from),
                    start,
                ))
            &&& accepted % 2 == 0 ==> item.context_text.len() == 0
        }),
{
    let post = pair.post_text@;
    texts_agree_outside_the_region(pair.pre_text@, post);
    let (from, to) = changed_region(pair.pre_text@, post)->0;
    let sentence = sentence_begin(post, from);
    a_sentence_begins_behind_the_last_end(post, from);
    a_window_reaches_back_over_one_boundary(post, from, sentence, 25);
    a_window_reaches_on_to_a_boundary(post, to, 12);
    let start = reaches_back(post, from, sentence, 0, 25);
    let end = reaches_on(post, to, 12);
    let item = item_of(pair, line_number, accepted, dictionary)->0;
    assert(item.expected_output[0] == post.subrange(start, end));
    assert(post.subrange(start, start + item.expected_output[0].len())
        == item.expected_output[0]);
}

/// No two accepted items have the same window, and each comes from its own line.
pub proof fn accepted_windows_differ(
    rows: Seq<Option<TrainPair>>,
    dictionary: Set<TextPair>,
    count: int,
)
    requires
        0 <= count <= rows.len(),
    ensures
        ({
            let (items, seen) = accepted_before(rows, dictionary, count);
            &&& forall|i: int|
                0 <= i < items.len() ==> seen.contains((#[trigger] items[i]).expected_output[0])
            &&& forall|i: int, j: int|
                0 <= i < j < items.len() ==> (#[trigger] items[i]).expected_output[0] != (
                #[trigger] items[j]).expected_output[0]
            &&& forall|row: int|
                0 <= row < count ==> match #[trigger] rows[row] {
                    Some(pair) => {
                        let before = accepted_before(rows, dictionary, row).0.len();
                        item_of(pair, row as nat, before, dictionary) matches Some(item)
                            ==> seen.contains(item.expected_output[0])
                    },
                    None => true,
                }
        }),
    decreases count,
{
    if count > 0 {
        accepted_windows_differ(rows, dictionary, count - 1);
    }
}

/// A partition holds the lines whose number leaves it as the remainder; leaving a partition out holds
/// the others; and without either everything is held.
pub proof fn partitions_hold_remainders(line: nat, partition_count: int, partition: usize)
    requires
        partition_count > 0,
        line <= usize::MAX,
    ensures
        is_selected(decimal(line), partition_count, Some(partition), None) <==> line as int
            % partition_count == partition,
        is_selected(decimal(line), partition_count, None, Some(partition)) <==> line as int
            % partition_count != partition,
        is_selected(decimal(line), partition_count, None, None),
{
    crate::text::decimal_reads_back(line);
}

} // verus!
