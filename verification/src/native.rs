//! The decisions of the native interface: which calls are refused with which status, what the
//! options of each version mean, and how neural rescoring is switched on.

use crate::actions::{error_json, error_response, words_response};
use crate::corpus::pairs;
use crate::input_events::{decode_event, event_problem, means, InputEvent};
use crate::kana::{full_katakana, katakana_text_with_marks};
use crate::neural::ScoreRequest;
use crate::primitives::utf8_text;
use crate::tables::{policy_columns, policy_rows};
use crate::text::{characters, lines};
use vstd::prelude::*;
use vstd::string::*;
use vstd::utf8::*;

verus! {

pub const STATUS_OK: u32 = 0;
pub const STATUS_NULL_HANDLE: u32 = 1;
pub const STATUS_INVALID_EVENT: u32 = 2;
pub const STATUS_NULL_CALLBACK: u32 = 3;
pub const STATUS_PANIC: u32 = 4;
pub const STATUS_INVALID_UTF8: u32 = 5;
pub const STATUS_INVALID_CANDIDATE: u32 = 6;
pub const STATUS_NEURAL_UNAVAILABLE: u32 = 7;
pub const STATUS_NEURAL_LOAD_FAILED: u32 = 8;
pub const STATUS_NEURAL_MODEL_CONFLICT: u32 = 9;
pub const STATUS_NEURAL_PREPARING: u32 = 10;
pub const STATUS_INVALID_NEURAL_PROFILE: u32 = 11;

pub const NEURAL_PROFILE_BALANCED: u32 = 0;
pub const NEURAL_PROFILE_HIGH_ACCURACY: u32 = 1;

/// How many candidates are scored at once.
pub const NEURAL_MAX_PARALLEL_CANDIDATES: usize = 16;

/// How many cells the model's cache has.
pub const NEURAL_CACHE_CELLS: u32 = 1_024;

// ---------------------------------------------------------------------------
// Arguments
// ---------------------------------------------------------------------------

/// The text of an argument, `bytes` being absent where its pointer is null. Such an argument is
/// the empty text if its length is zero; others must be valid UTF-8.
pub open spec fn argument_text(bytes: Option<Seq<u8>>, length: usize) -> Option<Seq<char>> {
    match bytes {
        None => if length == 0 {
            Some(Seq::empty())
        } else {
            None
        },
        Some(bytes) => if valid_utf8(bytes) {
            Some(decode_utf8(bytes))
        } else {
            None
        },
    }
}

/// The bytes that an argument borrows.
pub open spec fn argument_bytes(bytes: Option<&[u8]>) -> Option<Seq<u8>> {
    match bytes {
        Some(bytes) => Some(bytes@),
        None => None,
    }
}

/// The text of an argument that was handed over as bytes.
pub fn decode_utf8_argument<'a>(bytes: Option<&'a [u8]>, length: usize) -> (result: Option<
    &'a str,
>)
    ensures
        result is Some <==> argument_text(argument_bytes(bytes), length) is Some,
        result matches Some(text) ==> argument_text(argument_bytes(bytes), length) == Some(text@),
{
    match bytes {
        None => if length == 0 {
            proof {
                reveal_strlit("");
            }
            assert(""@ =~= Seq::empty());
            Some("")
        } else {
            None
        },
        Some(bytes) => utf8_text(bytes),
    }
}

/// Every text can be handed over as an argument: its bytes are decoded to it again.
pub proof fn arguments_decode_to_their_text(text: Seq<char>, length: usize)
    ensures
        argument_text(Some(encode_utf8(text)), length) == Some(text),
{
    encode_utf8_valid_utf8(text);
    encode_utf8_decode_utf8(text);
}

// ---------------------------------------------------------------------------
// Calls
// ---------------------------------------------------------------------------

/// Which event a call for a JSON response is about, or the response that refuses it.
pub fn requested_event(live: bool, event_kind: u32, value: u32) -> (result: Result<
    InputEvent,
    String,
>)
    ensures
        result is Ok <==> live && event_problem(event_kind, value) is None,
        result matches Ok(event) ==> means(event_kind, value, event),
        result matches Err(response) ==> response@ == error_json(
            if !live {
                "null_handle"@
            } else {
                event_problem(event_kind, value)->0
            },
        ),
{
    if !live {
        return Err(error_response("null_handle"));
    }
    match decode_event(event_kind, value) {
        Ok(event) => Ok(event),
        Err(error) => Err(error_response(error)),
    }
}

/// The status that refuses a call for typed actions; `STATUS_OK` if it is granted.
pub open spec fn event_status(live: bool, callback: bool, event_kind: u32, value: u32) -> u32 {
    if !live {
        STATUS_NULL_HANDLE
    } else if !callback {
        STATUS_NULL_CALLBACK
    } else if event_problem(event_kind, value) is Some {
        STATUS_INVALID_EVENT
    } else {
        STATUS_OK
    }
}

/// Which event a call for typed actions is about, or the status that refuses it.
pub fn requested_typed_event(live: bool, callback: bool, event_kind: u32, value: u32) -> (result:
    Result<InputEvent, u32>)
    ensures
        result is Ok <==> event_status(live, callback, event_kind, value) == STATUS_OK,
        result matches Ok(event) ==> means(event_kind, value, event),
        result matches Err(status) ==> status == event_status(live, callback, event_kind, value),
{
    if !live {
        return Err(STATUS_NULL_HANDLE);
    }
    if !callback {
        return Err(STATUS_NULL_CALLBACK);
    }
    match decode_event(event_kind, value) {
        Ok(event) => Ok(event),
        Err(_) => Err(STATUS_INVALID_EVENT),
    }
}

/// The reading whose candidates a call asks for, or the status that refuses it.
pub fn requested_reading<'a>(
    live: bool,
    callback: bool,
    bytes: Option<&'a [u8]>,
    length: usize,
) -> (result: Result<&'a str, u32>)
    ensures
        result is Ok <==> live && callback && argument_text(argument_bytes(bytes), length) is Some,
        result matches Ok(text) ==> argument_text(argument_bytes(bytes), length) == Some(text@),
        result matches Err(status) ==> status == (if !live {
            STATUS_NULL_HANDLE
        } else if !callback {
            STATUS_NULL_CALLBACK
        } else {
            STATUS_INVALID_UTF8
        }),
{
    if !live {
        return Err(STATUS_NULL_HANDLE);
    }
    if !callback {
        return Err(STATUS_NULL_CALLBACK);
    }
    match decode_utf8_argument(bytes, length) {
        Some(text) => Ok(text),
        None => Err(STATUS_INVALID_UTF8),
    }
}

/// The text of a call with one text, or the status that refuses it.
pub fn requested_text<'a>(live: bool, bytes: Option<&'a [u8]>, length: usize) -> (result: Result<
    &'a str,
    u32,
>)
    ensures
        result is Ok <==> live && argument_text(argument_bytes(bytes), length) is Some,
        result matches Ok(text) ==> argument_text(argument_bytes(bytes), length) == Some(text@),
        result matches Err(status) ==> status == (if !live {
            STATUS_NULL_HANDLE
        } else {
            STATUS_INVALID_UTF8
        }),
{
    requested_reading(live, true, bytes, length)
}

/// The two texts of a call, or the status that refuses it.
pub fn requested_texts<'a>(
    live: bool,
    first: Option<&'a [u8]>,
    first_length: usize,
    second: Option<&'a [u8]>,
    second_length: usize,
) -> (result: Result<(&'a str, &'a str), u32>)
    ensures
        result is Ok <==> live && argument_text(argument_bytes(first), first_length) is Some
            && argument_text(argument_bytes(second), second_length) is Some,
        result matches Ok(texts) ==> {
            &&& argument_text(argument_bytes(first), first_length) == Some(texts.0@)
            &&& argument_text(argument_bytes(second), second_length) == Some(texts.1@)
        },
        result matches Err(status) ==> status == (if !live {
            STATUS_NULL_HANDLE
        } else {
            STATUS_INVALID_UTF8
        }),
{
    match requested_text(live, first, first_length) {
        Err(status) => Err(status),
        Ok(left) => match requested_text(live, second, second_length) {
            Err(status) => Err(status),
            Ok(right) => Ok((left, right)),
        },
    }
}

/// The status of a selection that the engine did or did not record.
pub fn selection_status(recorded: bool) -> (result: u32)
    ensures
        result == (if recorded {
            STATUS_OK
        } else {
            STATUS_INVALID_CANDIDATE
        }),
{
    if recorded {
        STATUS_OK
    } else {
        STATUS_INVALID_CANDIDATE
    }
}

/// The status of a call that needs nothing but a live handle.
pub fn handle_status(live: bool) -> (result: u32)
    ensures
        result == (if live {
            STATUS_OK
        } else {
            STATUS_NULL_HANDLE
        }),
{
    if live {
        STATUS_OK
    } else {
        STATUS_NULL_HANDLE
    }
}

/// The surface that a call reconverts, or the response that refuses it.
pub fn requested_surface<'a>(live: bool, bytes: Option<&'a [u8]>, length: usize) -> (result: Result<
    &'a str,
    String,
>)
    ensures
        result is Ok <==> live && argument_text(argument_bytes(bytes), length) is Some,
        result matches Ok(text) ==> argument_text(argument_bytes(bytes), length) == Some(text@),
        result matches Err(response) ==> response@ == error_json(
            if !live {
                "null_handle"@
            } else {
                "invalid_surface"@
            },
        ),
{
    if !live {
        return Err(error_response("null_handle"));
    }
    match decode_utf8_argument(bytes, length) {
        Some(text) => Ok(text),
        None => Err(error_response("invalid_surface")),
    }
}

/// The dictionary pack that a call asks for, or the response that refuses it.
pub fn requested_pack<'a>(live: bool, bytes: Option<&'a [u8]>, length: usize) -> (result: Result<
    &'a str,
    String,
>)
    ensures
        result is Ok <==> live && argument_text(argument_bytes(bytes), length) is Some,
        result matches Ok(text) ==> argument_text(argument_bytes(bytes), length) == Some(text@),
        result matches Err(response) ==> response@ == error_json(
            if !live {
                "null_handle"@
            } else {
                "invalid_dictionary_pack_id"@
            },
        ),
{
    if !live {
        return Err(error_response("null_handle"));
    }
    match decode_utf8_argument(bytes, length) {
        Some(text) => Ok(text),
        None => Err(error_response("invalid_dictionary_pack_id")),
    }
}

/// The response with the words of a dictionary pack, which is unknown if there are none.
pub fn pack_words_response(words: &Option<Vec<(String, String)>>) -> (result: String)
    ensures
        result@ == match *words {
            None => error_json("unknown_dictionary_pack"@),
            Some(words) => "{\"ok\":true,\"words\":["@ + crate::actions::listed(
                words@.map_values(|word: (String, String)| crate::actions::word_json(word)),
            ) + "]}"@,
        },
{
    match words {
        None => error_response("unknown_dictionary_pack"),
        Some(words) => words_response(words.as_slice()),
    }
}

// ---------------------------------------------------------------------------
// Trust
// ---------------------------------------------------------------------------

/// The two columns of each row; `None` where a row is malformed.
pub open spec fn rows(source: Seq<char>) -> Option<Seq<(Seq<char>, Seq<char>)>> {
    if exists|i: int|
        0 <= i < lines(source).len() && policy_columns(#[trigger] lines(source)[i]) is None {
        None
    } else {
        Some(lines(source).map_values(|line: Seq<char>| policy_columns(line)->0))
    }
}

/// The rows of trusted keys, `id<TAB>key` each; `None` where a row is malformed.
pub fn parse_dictionary_pack_verification_keys(source: &str) -> (result: Option<
    Vec<(String, String)>,
>)
    ensures
        result is Some <==> rows(source@) is Some,
        result matches Some(keys) ==> rows(source@) == Some(pairs(keys@)),
{
    let mut found: Vec<Option<(String, String)>> = policy_rows(source);
    let ghost all = lines(source@);
    let ghost given = found@;
    let mut result: Vec<(String, String)> = Vec::new();
    let count: usize = found.len();
    for index in 0..count
        invariant
            count == all.len(),
            all == lines(source@),
            found@.len() == count,
            given.len() == count,
            forall|i: int| index <= i < count ==> #[trigger] found@[i] == given[i],
            forall|i: int|
                0 <= i < count ==> {
                    &&& (#[trigger] given[i]) is Some <==> policy_columns(all[i]) is Some
                    &&& given[i] matches Some(parts) ==> policy_columns(all[i]) == Some(
                        (parts.0@, parts.1@),
                    )
                },
            result@.len() == index,
            forall|i: int|
                0 <= i < index ==> policy_columns(#[trigger] all[i]) == Some(
                    (result@[i].0@, result@[i].1@),
                ),
    {
        assert(found@[index as int] == given[index as int]);
        match found[index].take() {
            None => {
                assert(policy_columns(all[index as int]) is None);
                return None;
            },
            Some(row) => {
                let ghost before = result@;
                result.push(row);
                assert forall|i: int| 0 <= i < index + 1 implies policy_columns(#[trigger] all[i])
                    == Some((result@[i].0@, result@[i].1@)) by {
                    if i < index {
                        assert(result@[i] == before[i]);
                    }
                }
            },
        }
    }
    assert(pairs(result@) =~= all.map_values(|line: Seq<char>| policy_columns(line)->0));
    Some(result)
}

/// The rows of version floors, `id<TAB>version` each; `None` where a row is malformed or there is
/// no text.
pub fn parse_dictionary_pack_version_floors(source: &str) -> (result: Option<
    Vec<(String, String)>,
>)
    ensures
        result is Some <==> source@.len() > 0 && rows(source@) is Some,
        result matches Some(floors) ==> rows(source@) == Some(pairs(floors@)),
{
    if source.is_empty() {
        return None;
    }
    parse_dictionary_pack_verification_keys(source)
}

/// Whether a character is a lower-case hexadecimal digit.
pub open spec fn is_lower_hex(character: char) -> bool {
    '0' <= character <= '9' || 'a' <= character <= 'f'
}

/// Whether a text names a source revision: forty lower-case hexadecimal digits.
pub fn is_source_revision(revision: &str) -> (result: bool)
    ensures
        result == (revision@.len() == 40 && forall|i: int|
            0 <= i < revision@.len() ==> is_lower_hex(#[trigger] revision@[i])),
{
    let letters: Vec<char> = characters(revision);
    if letters.len() != 40 {
        return false;
    }
    for index in 0..letters.len()
        invariant
            letters@ == revision@,
            forall|i: int| 0 <= i < index ==> is_lower_hex(#[trigger] revision@[i]),
    {
        let letter: char = letters[index];
        if !(('0' <= letter && letter <= '9') || ('a' <= letter && letter <= 'f')) {
            assert(!is_lower_hex(revision@[index as int]));
            return false;
        }
    }
    true
}

// ---------------------------------------------------------------------------
// Options
// ---------------------------------------------------------------------------

/// What the user prefers.
#[derive(Clone, Copy, Debug, PartialEq, Eq, Structural)]
pub struct EnginePreferences {
    pub live_conversion: bool,
    pub history_completion: bool,
    pub history_learning: bool,
    pub dictionary_packs: u32,
    pub private_mode: bool,
    pub date_format_mask: u32,
}

/// The preferences of the fifth version, which names all of them.
pub fn options_v5(
    live_conversion: bool,
    history_completion: bool,
    history_learning: bool,
    dictionary_packs: u32,
    private_mode: bool,
    date_format_mask: u32,
) -> (result: EnginePreferences)
    ensures
        result == (EnginePreferences {
            live_conversion,
            history_completion,
            history_learning,
            dictionary_packs,
            private_mode,
            date_format_mask,
        }),
{
    EnginePreferences {
        live_conversion,
        history_completion,
        history_learning,
        dictionary_packs,
        private_mode,
        date_format_mask,
    }
}

/// The preferences of the fourth version, which allows all date formats.
pub fn options_v4(
    live_conversion: bool,
    history_completion: bool,
    history_learning: bool,
    dictionary_packs: u32,
    private_mode: bool,
    all_date_formats: u32,
) -> (result: EnginePreferences)
    ensures
        result == (EnginePreferences {
            live_conversion,
            history_completion,
            history_learning,
            dictionary_packs,
            private_mode,
            date_format_mask: all_date_formats,
        }),
{
    options_v5(
        live_conversion,
        history_completion,
        history_learning,
        dictionary_packs,
        private_mode,
        all_date_formats,
    )
}

/// The preferences of the third version, which knows no private mode.
pub fn options_v3(
    live_conversion: bool,
    history_completion: bool,
    history_learning: bool,
    dictionary_packs: u32,
    all_date_formats: u32,
) -> (result: EnginePreferences)
    ensures
        result == (EnginePreferences {
            live_conversion,
            history_completion,
            history_learning,
            dictionary_packs,
            private_mode: false,
            date_format_mask: all_date_formats,
        }),
{
    options_v4(
        live_conversion,
        history_completion,
        history_learning,
        dictionary_packs,
        false,
        all_date_formats,
    )
}

/// The preferences of the second version, which learns where it completes.
pub fn options_v2(
    live_conversion: bool,
    history_completion: bool,
    dictionary_packs: u32,
    all_date_formats: u32,
) -> (result: EnginePreferences)
    ensures
        result == (EnginePreferences {
            live_conversion,
            history_completion,
            history_learning: history_completion,
            dictionary_packs,
            private_mode: false,
            date_format_mask: all_date_formats,
        }),
{
    options_v3(
        live_conversion,
        history_completion,
        history_completion,
        dictionary_packs,
        all_date_formats,
    )
}

/// The preferences of the first version, which knows no dictionary packs.
pub fn options(live_conversion: bool, history_completion: bool, all_date_formats: u32) -> (result:
    EnginePreferences)
    ensures
        result == (EnginePreferences {
            live_conversion,
            history_completion,
            history_learning: history_completion,
            dictionary_packs: 0,
            private_mode: false,
            date_format_mask: all_date_formats,
        }),
{
    options_v2(live_conversion, history_completion, 0, all_date_formats)
}

// ---------------------------------------------------------------------------
// Neural rescoring
// ---------------------------------------------------------------------------

/// The weight of the candidate scores and the margin that a score needs before a right context,
/// both in tenths, of a profile.
pub open spec fn profile_parameters(profile: u32) -> Option<(u32, u32)> {
    if profile == NEURAL_PROFILE_BALANCED {
        Some((7, 1))
    } else if profile == NEURAL_PROFILE_HIGH_ACCURACY {
        Some((8, 5))
    } else {
        None
    }
}

/// The parameters of a profile in tenths: weight and margin.
pub fn neural_profile_parameters(profile: u32) -> (result: Option<(u32, u32)>)
    ensures
        result == profile_parameters(profile),
{
    if profile == NEURAL_PROFILE_BALANCED {
        Some((7, 1))
    } else if profile == NEURAL_PROFILE_HIGH_ACCURACY {
        Some((8, 5))
    } else {
        None
    }
}

/// How a handle rescores: whether it does, and its parameters in tenths.
#[derive(Clone, Copy, Debug, PartialEq, Eq, Structural)]
pub struct Rescoring {
    pub enabled: bool,
    pub candidate_weight: u32,
    pub right_context_minimum_score_margin: u32,
}

impl Rescoring {
    /// A new handle does not rescore, and has the parameters of the balanced profile.
    pub fn new() -> (result: Self)
        ensures
            !result.enabled,
            profile_parameters(NEURAL_PROFILE_BALANCED) == Some(
                (result.candidate_weight, result.right_context_minimum_score_margin),
            ),
    {
        Rescoring { enabled: false, candidate_weight: 7, right_context_minimum_score_margin: 1 }
    }

    /// Takes over the parameters once the service is prepared; a failure changes nothing.
    pub fn enable(&mut self, parameters: (u32, u32), status: u32)
        ensures
            *final(self) == (if status == STATUS_OK {
                Rescoring {
                    enabled: true,
                    candidate_weight: parameters.0,
                    right_context_minimum_score_margin: parameters.1,
                }
            } else {
                *old(self)
            }),
    {
        if status == STATUS_OK {
            self.enabled = true;
            self.candidate_weight = parameters.0;
            self.right_context_minimum_score_margin = parameters.1;
        }
    }

    /// The margin in tenths that a score needs: none without a right context.
    pub fn minimum_margin(&self, right_context: &str) -> (result: u32)
        ensures
            result == (if right_context@.len() == 0 {
                0
            } else {
                self.right_context_minimum_score_margin
            }),
    {
        if right_context.is_empty() {
            0
        } else {
            self.right_context_minimum_score_margin
        }
    }
}

/// The status that refuses to enable rescoring; `STATUS_OK` if the service can be prepared.
/// `available` says whether the library was built with neural rescoring.
pub open spec fn enabling_status(
    live: bool,
    profile: u32,
    path: Option<Seq<char>>,
    available: bool,
) -> u32 {
    if !live {
        STATUS_NULL_HANDLE
    } else if profile_parameters(profile) is None {
        STATUS_INVALID_NEURAL_PROFILE
    } else if path is None || path->0.len() == 0 {
        STATUS_INVALID_UTF8
    } else if !available {
        STATUS_NEURAL_UNAVAILABLE
    } else {
        STATUS_OK
    }
}

/// The model and the parameters with which rescoring is enabled, or the status that refuses it.
/// An unknown profile is refused before anything is loaded.
pub fn requested_rescoring<'a>(
    live: bool,
    profile: u32,
    bytes: Option<&'a [u8]>,
    length: usize,
    available: bool,
) -> (result: Result<(&'a str, (u32, u32)), u32>)
    ensures
        ({
            let path = argument_text(argument_bytes(bytes), length);
            let status = enabling_status(live, profile, path, available);
            &&& result is Ok <==> status == STATUS_OK
            &&& result matches Ok(request) ==> path == Some(request.0@) && profile_parameters(
                profile,
            ) == Some(request.1)
            &&& result matches Err(refused) ==> refused == status
        }),
{
    if !live {
        return Err(STATUS_NULL_HANDLE);
    }
    let parameters: (u32, u32) = match neural_profile_parameters(profile) {
        Some(parameters) => parameters,
        None => {
            return Err(STATUS_INVALID_NEURAL_PROFILE);
        },
    };
    match decode_utf8_argument(bytes, length) {
        None => Err(STATUS_INVALID_UTF8),
        Some(path) => if path.is_empty() {
            Err(STATUS_INVALID_UTF8)
        } else if !available {
            Err(STATUS_NEURAL_UNAVAILABLE)
        } else {
            Ok((path, parameters))
        },
    }
}

/// The status of a model where one is configured already, `configured` saying whether it is the
/// same. Without a model nothing is decided: it is to be configured and loaded.
pub fn prepare_neural_service(configured: Option<bool>) -> (result: Option<u32>)
    ensures
        result == match configured {
            Some(same) => Some(if same {
                STATUS_OK
            } else {
                STATUS_NEURAL_MODEL_CONFLICT
            }),
            None => None,
        },
{
    match configured {
        Some(same) => if same {
            Some(STATUS_OK)
        } else {
            Some(STATUS_NEURAL_MODEL_CONFLICT)
        },
        None => None,
    }
}

/// The status where another call configured its model first.
pub fn lost_preparation(configured: Option<bool>) -> (result: u32)
    ensures
        result == match configured {
            Some(same) => if same {
                STATUS_OK
            } else {
                STATUS_NEURAL_MODEL_CONFLICT
            },
            None => STATUS_NEURAL_LOAD_FAILED,
        },
{
    match prepare_neural_service(configured) {
        Some(status) => status,
        None => STATUS_NEURAL_LOAD_FAILED,
    }
}

/// The status once the loader was started, or could not be.
pub fn started_preparation(started: bool) -> (result: u32)
    ensures
        result == (if started {
            STATUS_OK
        } else {
            STATUS_NEURAL_LOAD_FAILED
        }),
{
    if started {
        STATUS_OK
    } else {
        STATUS_NEURAL_LOAD_FAILED
    }
}

/// Whether the service is unavailable, preparing, ready or failed.
pub fn neural_rescoring_status(available: bool, ready: bool, failed: bool, configured: bool) -> (result:
    u32)
    ensures
        result == (if !available {
            STATUS_NEURAL_UNAVAILABLE
        } else if ready {
            STATUS_OK
        } else if failed {
            STATUS_NEURAL_LOAD_FAILED
        } else if configured {
            STATUS_NEURAL_PREPARING
        } else {
            STATUS_NEURAL_UNAVAILABLE
        }),
{
    if !available {
        STATUS_NEURAL_UNAVAILABLE
    } else if ready {
        STATUS_OK
    } else if failed {
        STATUS_NEURAL_LOAD_FAILED
    } else if configured {
        STATUS_NEURAL_PREPARING
    } else {
        STATUS_NEURAL_UNAVAILABLE
    }
}

/// What the model is asked: the reading goes to it in katakana.
pub fn score_request(
    context: String,
    right_context: String,
    reading: &str,
    candidates: Vec<String>,
) -> (result: ScoreRequest)
    ensures
        result.context == context,
        result.right_context == right_context,
        result.input_katakana@ == katakana_text_with_marks(reading@),
        result.candidates == candidates,
{
    ScoreRequest { context, right_context, input_katakana: full_katakana(reading), candidates }
}

// ---------------------------------------------------------------------------
// The numbers that adapters rely on
// ---------------------------------------------------------------------------

/// Statuses and profiles have fixed numbers.
pub proof fn statuses_are_numbered()
    ensures
        STATUS_OK == 0 && STATUS_NULL_HANDLE == 1 && STATUS_INVALID_EVENT == 2
            && STATUS_NULL_CALLBACK == 3 && STATUS_PANIC == 4 && STATUS_INVALID_UTF8 == 5
            && STATUS_INVALID_CANDIDATE == 6 && STATUS_NEURAL_UNAVAILABLE == 7
            && STATUS_NEURAL_LOAD_FAILED == 8 && STATUS_NEURAL_MODEL_CONFLICT == 9
            && STATUS_NEURAL_PREPARING == 10 && STATUS_INVALID_NEURAL_PROFILE == 11,
        NEURAL_PROFILE_BALANCED == 0 && NEURAL_PROFILE_HIGH_ACCURACY == 1,
{
}

/// A call for typed actions is granted only with a live handle, a callback and an event that has a
/// meaning; the first of these that is missing is named.
pub proof fn a_refused_event_names_the_first_reason(
    live: bool,
    callback: bool,
    event_kind: u32,
    value: u32,
)
    ensures
        !live ==> event_status(live, callback, event_kind, value) == 1,
        live && !callback ==> event_status(live, callback, event_kind, value) == 3,
        live && callback && (exists|event: InputEvent| means(event_kind, value, event))
            ==> event_status(live, callback, event_kind, value) == 0,
        live && callback && !(exists|event: InputEvent| means(event_kind, value, event))
            ==> event_status(live, callback, event_kind, value) == 2,
{
    if event_problem(event_kind, value) is None {
        crate::input_events::every_number_without_a_problem_means_an_event(event_kind, value);
    } else {
        crate::input_events::a_number_with_a_problem_means_nothing(event_kind, value);
    }
}

/// Rescoring is enabled only with a live handle, a known profile, a path that is neither empty nor
/// broken, and a library that was built for it; the first of these that is missing is named. The
/// balanced profile weighs candidates by seven tenths with a margin of one tenth, the accurate one
/// by eight tenths with a margin of five tenths.
pub proof fn a_refused_profile_names_the_first_reason(
    live: bool,
    profile: u32,
    path: Option<Seq<char>>,
    available: bool,
)
    ensures
        ({
            let status = enabling_status(live, profile, path, available);
            let named = path is Some && path->0.len() > 0;
            &&& !live ==> status == 1
            &&& live && profile > 1 ==> status == 11
            &&& live && profile <= 1 && !named ==> status == 5
            &&& live && profile <= 1 && named && !available ==> status == 7
            &&& live && profile <= 1 && named && available ==> status == 0
        }),
        profile == 0 ==> profile_parameters(profile) == Some((7u32, 1u32)),
        profile == 1 ==> profile_parameters(profile) == Some((8u32, 5u32)),
        profile > 1 ==> profile_parameters(profile) is None,
{
}

/// An argument is the text whose UTF-8 its bytes are; without bytes it is the empty text, and only
/// if its length is zero. Everything else is refused.
pub proof fn an_argument_is_the_text_of_its_bytes(bytes: Seq<u8>, length: usize)
    ensures
        argument_text(None, 0) == Some(Seq::<char>::empty()),
        length > 0 ==> argument_text(None, length) is None,
        argument_text(Some(bytes), length) matches Some(text) ==> encode_utf8(text) == bytes,
        argument_text(Some(bytes), length) is None ==> forall|text: Seq<char>|
            #[trigger] encode_utf8(text) != bytes,
{
    if valid_utf8(bytes) {
        decode_utf8_encode_utf8(bytes);
    } else {
        assert forall|text: Seq<char>| #[trigger] encode_utf8(text) != bytes by {
            encode_utf8_valid_utf8(text);
        }
    }
}

} // verus!
