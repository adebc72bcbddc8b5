//! Events that a platform adapter sends, as numbers, and what they mean.

use crate::kana::same_code_same_character;
use crate::primitives::is_scalar_value;
use vstd::prelude::*;

verus! {

pub const EVENT_CHARACTER: u32 = 0;
pub const EVENT_SPACE: u32 = 1;
pub const EVENT_ENTER: u32 = 2;
pub const EVENT_ESCAPE: u32 = 3;
pub const EVENT_BACKSPACE: u32 = 4;
pub const EVENT_NEXT_CANDIDATE: u32 = 5;
pub const EVENT_PREVIOUS_CANDIDATE: u32 = 6;
pub const EVENT_SELECT_CANDIDATE: u32 = 7;
pub const EVENT_ACCEPT_CANDIDATE: u32 = 8;
pub const EVENT_TRANSFORM_HIRAGANA: u32 = 9;
pub const EVENT_TRANSFORM_FULL_KATAKANA: u32 = 10;
pub const EVENT_TRANSFORM_HALF_KATAKANA: u32 = 11;
pub const EVENT_TRANSFORM_FULL_ALPHANUMERIC: u32 = 12;
pub const EVENT_TRANSFORM_HALF_ALPHANUMERIC: u32 = 13;
pub const EVENT_NEXT_SEGMENT: u32 = 14;
pub const EVENT_PREVIOUS_SEGMENT: u32 = 15;
pub const EVENT_EXPAND_SEGMENT: u32 = 16;
pub const EVENT_SHRINK_SEGMENT: u32 = 17;

/// An event that the engine handles.
#[derive(Clone, Copy, Debug, PartialEq, Eq, Structural)]
pub enum InputEvent {
    Character(char),
    Space,
    Enter,
    Escape,
    Backspace,
    NextCandidate,
    PreviousCandidate,
    SelectCandidate(u32),
    AcceptCandidate,
    TransformHiragana,
    TransformFullKatakana,
    TransformHalfKatakana,
    TransformFullAlphanumeric,
    TransformHalfAlphanumeric,
    NextSegment,
    PreviousSegment,
    ExpandSegment,
    ShrinkSegment,
}

/// The number of an event.
pub open spec fn event_kind_of(event: InputEvent) -> u32 {
    match event {
        InputEvent::Character(_) => EVENT_CHARACTER,
        InputEvent::Space => EVENT_SPACE,
        InputEvent::Enter => EVENT_ENTER,
        InputEvent::Escape => EVENT_ESCAPE,
        InputEvent::Backspace => EVENT_BACKSPACE,
        InputEvent::NextCandidate => EVENT_NEXT_CANDIDATE,
        InputEvent::PreviousCandidate => EVENT_PREVIOUS_CANDIDATE,
        InputEvent::SelectCandidate(_) => EVENT_SELECT_CANDIDATE,
        InputEvent::AcceptCandidate => EVENT_ACCEPT_CANDIDATE,
        InputEvent::TransformHiragana => EVENT_TRANSFORM_HIRAGANA,
        InputEvent::TransformFullKatakana => EVENT_TRANSFORM_FULL_KATAKANA,
        InputEvent::TransformHalfKatakana => EVENT_TRANSFORM_HALF_KATAKANA,
        InputEvent::TransformFullAlphanumeric => EVENT_TRANSFORM_FULL_ALPHANUMERIC,
        InputEvent::TransformHalfAlphanumeric => EVENT_TRANSFORM_HALF_ALPHANUMERIC,
        InputEvent::NextSegment => EVENT_NEXT_SEGMENT,
        InputEvent::PreviousSegment => EVENT_PREVIOUS_SEGMENT,
        InputEvent::ExpandSegment => EVENT_EXPAND_SEGMENT,
        InputEvent::ShrinkSegment => EVENT_SHRINK_SEGMENT,
    }
}

/// Whether `kind` and `value` mean `event`: the number is the event's, and the value is the
/// scalar value of its character or the index of its candidate.
pub open spec fn means(kind: u32, value: u32, event: InputEvent) -> bool {
    &&& kind == event_kind_of(event)
    &&& event matches InputEvent::Character(character) ==> character as u32 == value
    &&& event matches InputEvent::SelectCandidate(index) ==> index == value
}

/// Why a number is no event; `None` where it is one.
pub open spec fn event_problem(kind: u32, value: u32) -> Option<Seq<char>> {
    if kind > EVENT_SHRINK_SEGMENT {
        Some("invalid_event_kind"@)
    } else if kind == EVENT_CHARACTER && !is_scalar_value(value) {
        Some("invalid_unicode_scalar"@)
    } else {
        None
    }
}

/// The event that a number and its value mean.
pub fn decode_event(event_kind: u32, value: u32) -> (result: Result<InputEvent, &'static str>)
    ensures
        result is Ok <==> event_problem(event_kind, value) is None,
        result matches Ok(event) ==> means(event_kind, value, event),
        result matches Err(problem) ==> event_problem(event_kind, value) == Some(problem@),
{
    match event_kind {
        0 => match char::from_u32(value) {
            Some(character) => Ok(InputEvent::Character(character)),
            None => Err("invalid_unicode_scalar"),
        },
        1 => Ok(InputEvent::Space),
        2 => Ok(InputEvent::Enter),
        3 => Ok(InputEvent::Escape),
        4 => Ok(InputEvent::Backspace),
        5 => Ok(InputEvent::NextCandidate),
        6 => Ok(InputEvent::PreviousCandidate),
        7 => Ok(InputEvent::SelectCandidate(value)),
        8 => Ok(InputEvent::AcceptCandidate),
        9 => Ok(InputEvent::TransformHiragana),
        10 => Ok(InputEvent::TransformFullKatakana),
        11 => Ok(InputEvent::TransformHalfKatakana),
        12 => Ok(InputEvent::TransformFullAlphanumeric),
        13 => Ok(InputEvent::TransformHalfAlphanumeric),
        14 => Ok(InputEvent::NextSegment),
        15 => Ok(InputEvent::PreviousSegment),
        16 => Ok(InputEvent::ExpandSegment),
        17 => Ok(InputEvent::ShrinkSegment),
        _ => Err("invalid_event_kind"),
    }
}

/// A number and its value mean at most one event.
pub proof fn an_event_has_one_meaning(kind: u32, value: u32, left: InputEvent, right: InputEvent)
    requires
        means(kind, value, left),
        means(kind, value, right),
    ensures
        left == right,
{
    if left is Character {
        same_code_same_character(left->Character_0, right->Character_0);
    }
}

/// Every event can be sent: some number and value mean it.
pub proof fn every_event_can_be_sent(event: InputEvent)
    ensures
        exists|kind: u32, value: u32|
            #[trigger] means(kind, value, event) && event_problem(kind, value) is None,
{
    let kind = event_kind_of(event);
    let value = match event {
        InputEvent::Character(character) => character as u32,
        InputEvent::SelectCandidate(index) => index,
        _ => 0,
    };
    assert(means(kind, value, event));
    assert(event_problem(kind, value) is None);
}

/// The events are numbered from zero in a fixed order, which adapters rely on.
pub proof fn events_are_numbered(kind: u32, value: u32, event: InputEvent)
    requires
        means(kind, value, event),
    ensures
        kind == match event {
            InputEvent::Character(_) => 0u32,
            InputEvent::Space => 1,
            InputEvent::Enter => 2,
            InputEvent::Escape => 3,
            InputEvent::Backspace => 4,
            InputEvent::NextCandidate => 5,
            InputEvent::PreviousCandidate => 6,
            InputEvent::SelectCandidate(_) => 7,
            InputEvent::AcceptCandidate => 8,
            InputEvent::TransformHiragana => 9,
            InputEvent::TransformFullKatakana => 10,
            InputEvent::TransformHalfKatakana => 11,
            InputEvent::TransformFullAlphanumeric => 12,
            InputEvent::TransformHalfAlphanumeric => 13,
            InputEvent::NextSegment => 14,
            InputEvent::PreviousSegment => 15,
            InputEvent::ExpandSegment => 16,
            InputEvent::ShrinkSegment => 17,
        },
        event matches InputEvent::Character(character) ==> character as u32 == value,
        event matches InputEvent::SelectCandidate(index) ==> index == value,
{
}

/// A number is no event only where it is too great, or where a character is announced and the value
/// is no scalar value.
pub proof fn only_unknown_events_are_refused(kind: u32, value: u32)
    ensures
        kind > 17 ==> event_problem(kind, value) == Some("invalid_event_kind"@),
        kind == 0 && (0xD800 <= value <= 0xDFFF || value > 0x10FFFF) ==> event_problem(kind, value)
            == Some("invalid_unicode_scalar"@),
        0 < kind <= 17 ==> event_problem(kind, value) is None,
        kind == 0 && (value < 0xD800 || 0xDFFF < value <= 0x10FFFF) ==> event_problem(kind, value)
            is None,
{
}

/// A number without a problem means an event.
pub proof fn every_number_without_a_problem_means_an_event(kind: u32, value: u32)
    requires
        event_problem(kind, value) is None,
    ensures
        exists|event: InputEvent| means(kind, value, event),
{
    let event = match kind {
        0 => InputEvent::Character(value as char),
        1 => InputEvent::Space,
        2 => InputEvent::Enter,
        3 => InputEvent::Escape,
        4 => InputEvent::Backspace,
        5 => InputEvent::NextCandidate,
        6 => InputEvent::PreviousCandidate,
        7 => InputEvent::SelectCandidate(value),
        8 => InputEvent::AcceptCandidate,
        9 => InputEvent::TransformHiragana,
        10 => InputEvent::TransformFullKatakana,
        11 => InputEvent::TransformHalfKatakana,
        12 => InputEvent::TransformFullAlphanumeric,
        13 => InputEvent::TransformHalfAlphanumeric,
        14 => InputEvent::NextSegment,
        15 => InputEvent::PreviousSegment,
        16 => InputEvent::ExpandSegment,
        _ => InputEvent::ShrinkSegment,
    };
    assert(means(kind, value, event));
}

/// A number with a problem means no event.
pub proof fn a_number_with_a_problem_means_nothing(kind: u32, value: u32)
    requires
        event_problem(kind, value) is Some,
    ensures
        !(exists|event: InputEvent| means(kind, value, event)),
{
    assert forall|event: InputEvent| !means(kind, value, event) by {
        if let InputEvent::Character(character) = event {
            assert(is_scalar_value(character as u32));
        }
    }
}

} // verus!
