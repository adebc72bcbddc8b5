//! The native interface: events, actions, responses and statuses.

use slime::actions::{
    error_response, packs_response, success_response, visit_action, visit_action_v2,
    words_response, CandidateDetail, InstalledPack, PackLoadError, SlimeAction, SlimeBuffer,
    SlimeStringView, ACTION_COMMIT, ACTION_FORWARD_KEY, ACTION_SHOW_CANDIDATES,
    ACTION_UPDATE_PREEDIT,
};
use slime::input_events::{
    decode_event, InputEvent, EVENT_CHARACTER, EVENT_SELECT_CANDIDATE, EVENT_SHRINK_SEGMENT,
    EVENT_SPACE,
};
use slime::json::{write_json_string, write_optional_json_string};
use slime::native::{
    decode_utf8_argument, handle_status, is_source_revision, lost_preparation,
    neural_profile_parameters, neural_rescoring_status, options, options_v2, options_v3,
    options_v4, options_v5, pack_words_response, parse_dictionary_pack_verification_keys,
    parse_dictionary_pack_version_floors, prepare_neural_service, requested_event, requested_pack,
    requested_reading, requested_rescoring, requested_surface, requested_text, requested_texts,
    requested_typed_event, score_request, selection_status, started_preparation, Rescoring,
    NEURAL_PROFILE_BALANCED, NEURAL_PROFILE_HIGH_ACCURACY, STATUS_INVALID_CANDIDATE,
    STATUS_INVALID_EVENT, STATUS_INVALID_NEURAL_PROFILE, STATUS_INVALID_UTF8,
    STATUS_NEURAL_LOAD_FAILED, STATUS_NEURAL_MODEL_CONFLICT, STATUS_NEURAL_PREPARING,
    STATUS_NEURAL_UNAVAILABLE, STATUS_NULL_CALLBACK, STATUS_NULL_HANDLE, STATUS_OK,
};

fn text_argument(text: &str) -> (Option<&[u8]>, usize) {
    (Some(text.as_bytes()), text.len())
}

fn candidates() -> SlimeAction {
    SlimeAction::ShowCandidates {
        candidates: vec!["日本".to_owned(), "二本 (訂正)".to_owned()],
        details: vec![
            CandidateDetail {
                value: "日本".to_owned(),
                annotation: 0,
                detail: None,
            },
            CandidateDetail {
                value: "二本".to_owned(),
                annotation: 3,
                detail: Some("訂正".to_owned()),
            },
        ],
        selected: 1,
    }
}

#[test]
fn neural_profiles_keep_measured_parameters_explicit() {
    let parameters = |profile: u32| {
        neural_profile_parameters(profile)
            .map(|(weight, margin)| (f64::from(weight) / 10.0, f64::from(margin) / 10.0))
    };
    assert_eq!(parameters(NEURAL_PROFILE_BALANCED), Some((0.7, 0.1)));
    assert_eq!(parameters(NEURAL_PROFILE_HIGH_ACCURACY), Some((0.8, 0.5)));
    assert_eq!(parameters(u32::MAX), None);
}

#[test]
fn invalid_neural_profile_is_rejected_before_loading() {
    let (path, length) = text_argument("model.gguf");
    assert_eq!(
        requested_rescoring(true, u32::MAX, path, length, true),
        Err(STATUS_INVALID_NEURAL_PROFILE)
    );
}

#[test]
fn default_build_reports_neural_rescoring_as_unavailable() {
    let (path, length) = text_argument("model.gguf");
    assert_eq!(
        requested_rescoring(true, NEURAL_PROFILE_BALANCED, path, length, false),
        Err(STATUS_NEURAL_UNAVAILABLE)
    );
    assert_eq!(
        neural_rescoring_status(false, false, false, false),
        STATUS_NEURAL_UNAVAILABLE
    );
}

#[test]
fn invalid_event_is_reported_without_panicking() {
    let json = requested_event(true, 999, 0).unwrap_err();
    assert_eq!(json, "{\"ok\":false,\"error\":\"invalid_event_kind\"}");
}

#[test]
fn null_handle_is_an_error() {
    let json = requested_event(false, EVENT_SPACE, 0).unwrap_err();
    assert_eq!(json, "{\"ok\":false,\"error\":\"null_handle\"}");
}

#[test]
fn context_reset_reports_live_and_null_handles() {
    assert_eq!(handle_status(true), STATUS_OK);
    assert_eq!(handle_status(false), STATUS_NULL_HANDLE);
}

#[test]
fn external_left_context_reports_invalid_inputs_without_panicking() {
    let (context, length) = text_argument("直前の文章");
    assert_eq!(requested_text(true, context, length), Ok("直前の文章"));
    let invalid = [0xff];
    assert_eq!(
        requested_text(true, Some(&invalid), invalid.len()),
        Err(STATUS_INVALID_UTF8)
    );
    assert_eq!(
        requested_text(false, context, length),
        Err(STATUS_NULL_HANDLE)
    );
}

#[test]
fn bidirectional_context_reports_invalid_inputs_without_panicking() {
    let (left, left_length) = text_argument("直前の文章");
    let (right, right_length) = text_argument("後続の文章");
    assert_eq!(
        requested_texts(true, left, left_length, right, right_length),
        Ok(("直前の文章", "後続の文章"))
    );
    let invalid = [0xff];
    assert_eq!(
        requested_texts(true, left, left_length, Some(&invalid), invalid.len()),
        Err(STATUS_INVALID_UTF8)
    );
    assert_eq!(
        requested_texts(false, left, left_length, right, right_length),
        Err(STATUS_NULL_HANDLE)
    );
}

#[test]
fn domain_dictionary_words_are_exposed_as_json() {
    let json = words_response(&[("こうてい".to_owned(), "行程".to_owned())]);
    assert!(json.starts_with("{\"ok\":true,\"words\":["), "{json}");
    assert!(json.contains("\"reading\":"), "{json}");
    assert!(json.contains("\"surface\":"), "{json}");
    assert_eq!(words_response(&[]), "{\"ok\":true,\"words\":[]}");
}

#[test]
fn installed_dictionary_packs_cross_the_c_boundary() {
    let digest = "dba7dcf657c74cd788ee904f95b5d2dd54d6fd16925e2ec88c96a13d19e4a0b6";
    let json = packs_response(
        &[InstalledPack {
            id: "sample-general".to_owned(),
            format_version: 3,
            name: "一般語彙サンプル".to_owned(),
            version: "2026.08.1".to_owned(),
            license: "Example-Test-Only".to_owned(),
            minimum_slime_version: Some("0.1.0".to_owned()),
            published_at: Some("2026-08-08".to_owned()),
            provenance: Some("fixture/generated/sample-general".to_owned()),
            entries_sha256: None,
            payload_sha256: Some(digest.to_owned()),
            pack_sha256: "00".to_owned(),
            entry_count: 1,
            context_rule_count: 1,
        }],
        &[PackLoadError {
            file: "bad.slime-dict".to_owned(),
            message: "broken".to_owned(),
        }],
    );
    assert!(json.contains("\"id\":\"sample-general\""), "{json}");
    assert!(json.contains("\"formatVersion\":3"), "{json}");
    assert!(
        json.contains("\"provenance\":\"fixture/generated/sample-general\""),
        "{json}"
    );
    assert!(
        json.contains(
            "\"payloadSHA256\":\"dba7dcf657c74cd788ee904f95b5d2dd54d6fd16925e2ec88c96a13d19e4a0b6\""
        ),
        "{json}"
    );
    assert!(json.contains("\"entryCount\":1"), "{json}");
    assert!(json.contains("\"contextRuleCount\":1"), "{json}");
    assert!(json.contains("\"packSHA256\":"), "{json}");
    let value: serde_json::Value = serde_json::from_str(&json).unwrap();
    assert_eq!(value["packs"][0]["name"], "一般語彙サンプル");
    assert!(value["packs"][0]["entriesSHA256"].is_null());
    assert_eq!(value["errors"][0]["file"], "bad.slime-dict");

    let words = pack_words_response(&Some(vec![(
        "てすとようご".to_owned(),
        "試験用語".to_owned(),
    )]));
    assert!(words.contains("試験用語"), "{words}");
    assert_eq!(
        pack_words_response(&None),
        "{\"ok\":false,\"error\":\"unknown_dictionary_pack\"}"
    );
}

#[test]
fn responses_are_json() {
    let response = success_response(&[
        SlimeAction::UpdatePreedit("に\"ほ\\ん\n\u{1}\u{7f}".to_owned()),
        SlimeAction::UpdateSegmentedPreedit {
            text: "日本語".to_owned(),
            selection_start: 1,
            selection_length: 2,
        },
        candidates(),
        SlimeAction::HideCandidates,
        SlimeAction::Commit("日本".to_owned()),
        SlimeAction::Clear,
        SlimeAction::ForwardKey,
    ]);
    let value: serde_json::Value = serde_json::from_str(&response).unwrap();
    assert_eq!(value["ok"], true);
    let actions = &value["actions"];
    assert_eq!(actions[0]["type"], "update_preedit");
    assert_eq!(actions[0]["text"], "に\"ほ\\ん\n\u{1}\u{7f}");
    assert_eq!(actions[1]["selectedStart"], 1);
    assert_eq!(actions[1]["selectedLength"], 2);
    assert_eq!(actions[2]["selected"], 1);
    assert_eq!(actions[2]["candidates"][1], "二本 (訂正)");
    assert_eq!(actions[2]["candidateDetails"][1]["value"], "二本");
    assert_eq!(actions[2]["candidateDetails"][1]["annotation"], 3);
    assert_eq!(actions[2]["candidateDetails"][1]["detail"], "訂正");
    assert!(actions[2]["candidateDetails"][0]["detail"].is_null());
    assert_eq!(actions[3]["type"], "hide_candidates");
    assert_eq!(actions[4]["text"], "日本");
    assert_eq!(actions[5]["type"], "clear");
    assert_eq!(actions[6]["type"], "forward_key");
    assert_eq!(success_response(&[]), "{\"ok\":true,\"actions\":[]}");
    assert_eq!(
        error_response("panic"),
        "{\"ok\":false,\"error\":\"panic\"}"
    );
}

#[test]
fn every_character_survives_json() {
    for code in 0..0x3000_u32 {
        let Some(character) = char::from_u32(code) else {
            continue;
        };
        let text = format!("a{character}b");
        let mut json = String::new();
        write_json_string(&mut json, &text);
        assert_eq!(serde_json::from_str::<String>(&json).unwrap(), text);
    }
    let mut json = String::from("x");
    write_optional_json_string(&mut json, None);
    write_optional_json_string(&mut json, Some("\t"));
    assert_eq!(json, "xnull\"\\t\"");
}

#[test]
fn buffers_hold_the_bytes_of_a_response() {
    assert_eq!(
        SlimeBuffer::from_string("日本".to_owned()).data,
        "日本".as_bytes()
    );
}

#[test]
fn typed_views_agree() {
    let action = candidates();
    let first = visit_action(&action);
    let second = visit_action_v2(&action);
    assert_eq!(first.kind, ACTION_SHOW_CANDIDATES);
    assert_eq!(second.kind, ACTION_SHOW_CANDIDATES);
    assert_eq!(first.candidate_count, 2);
    assert_eq!(second.candidate_count, 2);
    assert_eq!(first.selected, 1);
    assert_eq!(first.selection_start, usize::MAX);
    assert_eq!(first.text, SlimeStringView::empty());
    let displayed = first.candidates.unwrap();
    let described = second.candidates.unwrap();
    assert_eq!(displayed[1], SlimeStringView::new("二本 (訂正)"));
    assert_eq!(described[1].display, displayed[1]);
    assert_eq!(described[1].value.text, Some("二本"));
    assert_eq!(described[1].annotation, 3);
    assert_eq!(described[1].detail.text, Some("訂正"));
    assert_eq!(described[0].detail.text, None);
}

#[test]
fn typed_views_of_texts_have_no_candidates() {
    let preedit = SlimeAction::UpdateSegmentedPreedit {
        text: "日本".to_owned(),
        selection_start: 0,
        selection_length: 1,
    };
    let view = visit_action(&preedit);
    assert_eq!(view.kind, ACTION_UPDATE_PREEDIT);
    assert_eq!(view.text.text, Some("日本"));
    assert!(view.candidates.is_none());
    assert_eq!(view.candidate_count, 0);
    assert_eq!(view.selection_start, 0);
    assert_eq!(view.selection_length, 1);
    assert_eq!(view.selected, usize::MAX);
    let commit = SlimeAction::Commit("日本".to_owned());
    assert_eq!(visit_action_v2(&commit).kind, ACTION_COMMIT);
    assert_eq!(
        visit_action_v2(&SlimeAction::ForwardKey).kind,
        ACTION_FORWARD_KEY
    );
    let plain = SlimeAction::UpdatePreedit(String::new());
    assert_eq!(visit_action(&plain).text.text, Some(""));
}

#[test]
fn events_are_decoded() {
    assert_eq!(
        decode_event(EVENT_CHARACTER, u32::from('あ')),
        Ok(InputEvent::Character('あ'))
    );
    assert_eq!(
        decode_event(EVENT_CHARACTER, 0xD800),
        Err("invalid_unicode_scalar")
    );
    assert_eq!(
        decode_event(EVENT_SELECT_CANDIDATE, 5),
        Ok(InputEvent::SelectCandidate(5))
    );
    assert_eq!(
        decode_event(EVENT_SHRINK_SEGMENT, 5),
        Ok(InputEvent::ShrinkSegment)
    );
    assert_eq!(decode_event(18, 0), Err("invalid_event_kind"));
    assert_eq!(
        requested_typed_event(false, false, 99, 0),
        Err(STATUS_NULL_HANDLE)
    );
    assert_eq!(
        requested_typed_event(true, false, 99, 0),
        Err(STATUS_NULL_CALLBACK)
    );
    assert_eq!(
        requested_typed_event(true, true, 99, 0),
        Err(STATUS_INVALID_EVENT)
    );
    assert_eq!(
        requested_typed_event(true, true, EVENT_SPACE, 0),
        Ok(InputEvent::Space)
    );
}

#[test]
fn arguments_are_texts() {
    assert_eq!(decode_utf8_argument(None, 0), Some(""));
    assert_eq!(decode_utf8_argument(None, 1), None);
    assert_eq!(decode_utf8_argument(Some("漢字".as_bytes()), 6), Some("漢字"));
    assert_eq!(decode_utf8_argument(Some(&[0xE6, 0xBC]), 2), None);
    assert_eq!(
        requested_reading(true, false, None, 0),
        Err(STATUS_NULL_CALLBACK)
    );
    assert_eq!(requested_reading(true, true, None, 0), Ok(""));
    assert_eq!(
        requested_surface(true, Some(&[0xff]), 1).unwrap_err(),
        "{\"ok\":false,\"error\":\"invalid_surface\"}"
    );
    assert_eq!(
        requested_pack(true, Some(&[0xff]), 1).unwrap_err(),
        "{\"ok\":false,\"error\":\"invalid_dictionary_pack_id\"}"
    );
    assert_eq!(
        requested_pack(false, None, 0).unwrap_err(),
        "{\"ok\":false,\"error\":\"null_handle\"}"
    );
    assert_eq!(selection_status(true), STATUS_OK);
    assert_eq!(selection_status(false), STATUS_INVALID_CANDIDATE);
}

#[test]
fn later_options_extend_earlier_ones() {
    let all = 0xF;
    assert_eq!(options(true, false, all), options_v2(true, false, 0, all));
    assert_eq!(
        options_v2(true, true, 3, all),
        options_v3(true, true, true, 3, all)
    );
    assert_eq!(
        options_v3(true, true, false, 3, all),
        options_v4(true, true, false, 3, false, all)
    );
    assert_eq!(
        options_v4(true, true, false, 3, true, all),
        options_v5(true, true, false, 3, true, all)
    );
    let preferences = options_v5(false, true, false, 2, true, 1);
    assert_eq!(preferences.date_format_mask, 1);
    assert!(preferences.private_mode);
    assert!(!preferences.live_conversion);
}

#[test]
fn rescoring_is_enabled_once_it_is_prepared() {
    let (path, length) = text_argument("model.gguf");
    assert_eq!(
        requested_rescoring(false, 0, path, length, true),
        Err(STATUS_NULL_HANDLE)
    );
    assert_eq!(
        requested_rescoring(true, 0, None, 0, true),
        Err(STATUS_INVALID_UTF8)
    );
    let (model, parameters) =
        requested_rescoring(true, NEURAL_PROFILE_HIGH_ACCURACY, path, length, true).unwrap();
    assert_eq!(model, "model.gguf");
    let mut rescoring = Rescoring::new();
    rescoring.enable(parameters, STATUS_NEURAL_LOAD_FAILED);
    assert_eq!(rescoring, Rescoring::new());
    rescoring.enable(parameters, STATUS_OK);
    assert!(rescoring.enabled);
    assert_eq!(rescoring.candidate_weight, 8);
    assert_eq!(rescoring.minimum_margin(""), 0);
    assert_eq!(rescoring.minimum_margin("続き"), 5);
    assert_eq!(prepare_neural_service(Some(true)), Some(STATUS_OK));
    assert_eq!(
        prepare_neural_service(Some(false)),
        Some(STATUS_NEURAL_MODEL_CONFLICT)
    );
    assert_eq!(prepare_neural_service(None), None);
    assert_eq!(lost_preparation(None), STATUS_NEURAL_LOAD_FAILED);
    assert_eq!(started_preparation(false), STATUS_NEURAL_LOAD_FAILED);
    assert_eq!(
        neural_rescoring_status(true, false, false, true),
        STATUS_NEURAL_PREPARING
    );
    assert_eq!(neural_rescoring_status(true, true, true, true), STATUS_OK);
    assert_eq!(
        neural_rescoring_status(true, false, true, true),
        STATUS_NEURAL_LOAD_FAILED
    );
    let request = score_request(
        "前".to_owned(),
        String::new(),
        "こうていゝ",
        vec!["行程".to_owned()],
    );
    assert_eq!(request.input_katakana, "コウテイヽ");
    assert_eq!(request.candidates, ["行程"]);
}

#[test]
fn trust_is_read_from_rows() {
    let keys = "fixture-2026-a\td75a980182b10ab7d54bfed3c964073a0ee172f3daa62325af021a68f707511a\n";
    let rows = parse_dictionary_pack_verification_keys(keys).unwrap();
    assert_eq!(rows[0].0, "fixture-2026-a");
    assert_eq!(rows[0].1.len(), 64);
    assert_eq!(parse_dictionary_pack_verification_keys(""), Some(vec![]));
    assert_eq!(parse_dictionary_pack_verification_keys("id"), None);
    assert_eq!(parse_dictionary_pack_verification_keys("id\ta\tb"), None);
    assert_eq!(parse_dictionary_pack_version_floors(""), None);
    assert_eq!(
        parse_dictionary_pack_version_floors("sample-general\t2026.08.1\n"),
        Some(vec![("sample-general".to_owned(), "2026.08.1".to_owned())])
    );
    assert!(is_source_revision(&"a1".repeat(20)));
    assert!(!is_source_revision(&"A1".repeat(20)));
    assert!(!is_source_revision("a1"));
}

#[test]
fn candidates_without_a_description_are_left_out_of_the_second_view() {
    let action = SlimeAction::ShowCandidates {
        candidates: vec!["漢字".to_owned(), "感じ".to_owned()],
        details: vec![CandidateDetail {
            value: "漢字".to_owned(),
            annotation: 0,
            detail: None,
        }],
        selected: 0,
    };
    let view = visit_action_v2(&action);
    assert_eq!(view.candidate_count, 1);
    assert_eq!(view.candidates.unwrap()[0].display.text, Some("漢字"));
    assert_eq!(visit_action(&action).candidate_count, 2);
}
