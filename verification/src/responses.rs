//! What a platform finds in the responses of the native interface.

use crate::actions::{
    action_json, action_model, described, detail_json, displayed, error_json, listed,
    load_error_json, success_json, word_json, CandidateDetail, PackLoadError, SlimeAction,
};
use crate::evaluation_options::optional_text;
use crate::json::{json_optional, json_string};
use crate::json_reading::{
    a_list_has_its_elements, a_plain_name_is_written_as_it_is, an_object_has_its_members,
    digit_values, elements, is_json_value, json_strings_tell_texts_apart, member_text, member_texts,
    members, simple_values, string_values, with_commas, Member,
};
use crate::text::{decimal, decimal_reads_back};
use vstd::prelude::*;
use vstd::string::*;

verus! {

// ---------------------------------------------------------------------------
// Values
// ---------------------------------------------------------------------------

proof fn a_string_is_a_value(text: Seq<char>)
    ensures
        is_json_value(json_string(text)),
{
    string_values(text);
}

proof fn an_optional_string_is_a_value(text: Option<Seq<char>>)
    ensures
        is_json_value(json_optional(text)),
{
    match text {
        Some(found) => string_values(found),
        None => {
            reveal_strlit("null");
            simple_values("null"@);
        },
    }
}

proof fn a_number_is_a_value(number: nat)
    ensures
        is_json_value(decimal(number)),
{
    decimal_reads_back(number);
    digit_values(decimal(number));
}

/// Some values as a list.
#[verifier::opaque]
pub open spec fn list_text(values: Seq<Seq<char>>) -> Seq<char> {
    seq!['['] + listed(values) + seq![']']
}

proof fn listed_values_have_commas_between_them(values: Seq<Seq<char>>)
    ensures
        listed(values) == with_commas(values),
    decreases values.len(),
{
    reveal_strlit(",");
    if values.len() == 2 {
        assert(listed(values.drop_last()) == values[0]);
        assert(with_commas(values.drop_first()) == values[1]);
        assert(listed(values) =~= with_commas(values));
    } else if values.len() > 2 {
        let inner = values.drop_first().drop_last();
        listed_values_have_commas_between_them(values.drop_last());
        listed_values_have_commas_between_them(values.drop_first());
        assert(values.drop_last().drop_first() =~= inner);
        listed_values_have_commas_between_them(inner);
        assert(values.drop_first().last() == values.last());
        assert(values.drop_last()[0] == values[0]);
        assert(listed(values.drop_first()) == listed(inner) + ","@ + values.last());
        assert(with_commas(values.drop_last()) == values[0] + seq![','] + with_commas(inner));
        assert(listed(values) =~= with_commas(values));
    }
}

/// A reader finds the values that were listed, in their order.
pub proof fn listed_values_are_found(values: Seq<Seq<char>>)
    requires
        forall|i: int| 0 <= i < values.len() ==> is_json_value(#[trigger] values[i]),
    ensures
        elements(list_text(values)) == Some(values),
        list_text(values) == seq!['['] + listed(values) + seq![']'],
        is_json_value(list_text(values)),
{
    reveal(list_text);
    listed_values_have_commas_between_them(values);
    a_list_has_its_elements(values);
}

// ---------------------------------------------------------------------------
// Objects
// ---------------------------------------------------------------------------

proof fn one_member(first: Member)
    requires
        is_json_value(first.1),
    ensures
        members(seq!['{'] + member_text(first) + seq!['}']) == Some(seq![first]),
        is_json_value(seq!['{'] + member_text(first) + seq!['}']),
{
    let found = seq![first];
    an_object_has_its_members(found);
    assert(member_texts(found) =~= seq![member_text(first)]);
}

proof fn commas_between(first: Seq<char>, second: Seq<char>, third: Seq<char>, fourth: Seq<char>)
    ensures
        with_commas(seq![first, second]) == first + seq![','] + second,
        with_commas(seq![first, second, third]) == first + seq![','] + second + seq![','] + third,
        with_commas(seq![first, second, third, fourth]) == first + seq![','] + second + seq![',']
            + third + seq![','] + fourth,
{
    one_text_has_no_comma(second);
    one_text_has_no_comma(third);
    one_text_has_no_comma(fourth);
    assert(seq![first, second].drop_first() =~= seq![second]);
    assert(seq![second, third].drop_first() =~= seq![third]);
    assert(seq![third, fourth].drop_first() =~= seq![fourth]);
    assert(seq![first, second, third].drop_first() =~= seq![second, third]);
    assert(seq![second, third, fourth].drop_first() =~= seq![third, fourth]);
    assert(seq![first, second, third, fourth].drop_first() =~= seq![second, third, fourth]);
    let comma = seq![','];
    assert(with_commas(seq![second, third]) == second + comma + third);
    assert(with_commas(seq![third, fourth]) == third + comma + fourth);
    assert(with_commas(seq![second, third, fourth]) == second + comma + (third + comma + fourth));
    assert(first + comma + (second + comma + third) =~= first + comma + second + comma + third);
    assert(first + comma + (second + comma + (third + comma + fourth)) =~= first + comma + second
        + comma + third + comma + fourth);
}

proof fn one_text_has_no_comma(text: Seq<char>)
    ensures
        with_commas(seq![text]) == text,
{
}

proof fn two_members(first: Member, second: Member)
    requires
        is_json_value(first.1),
        is_json_value(second.1),
    ensures
        ({
            let json = seq!['{'] + (member_text(first) + seq![','] + member_text(second)) + seq!['}'];
            members(json) == Some(seq![first, second]) && is_json_value(json)
        }),
{
    let found = seq![first, second];
    an_object_has_its_members(found);
    assert(member_texts(found) =~= seq![member_text(first), member_text(second)]);
    let nothing = Seq::<char>::empty();
    commas_between(member_text(first), member_text(second), nothing, nothing);
}

proof fn three_members(first: Member, second: Member, third: Member)
    requires
        is_json_value(first.1),
        is_json_value(second.1),
        is_json_value(third.1),
    ensures
        ({
            let json = seq!['{'] + (member_text(first) + seq![','] + member_text(second) + seq![',']
                + member_text(third)) + seq!['}'];
            members(json) == Some(seq![first, second, third]) && is_json_value(json)
        }),
{
    let found = seq![first, second, third];
    an_object_has_its_members(found);
    assert(member_texts(found) =~= seq![
        member_text(first),
        member_text(second),
        member_text(third),
    ]);
    let nothing = Seq::<char>::empty();
    commas_between(member_text(first), member_text(second), member_text(third), nothing);
}

proof fn four_members(first: Member, second: Member, third: Member, fourth: Member)
    requires
        is_json_value(first.1),
        is_json_value(second.1),
        is_json_value(third.1),
        is_json_value(fourth.1),
    ensures
        ({
            let json = seq!['{'] + (member_text(first) + seq![','] + member_text(second) + seq![',']
                + member_text(third) + seq![','] + member_text(fourth)) + seq!['}'];
            members(json) == Some(seq![first, second, third, fourth]) && is_json_value(json)
        }),
{
    let found = seq![first, second, third, fourth];
    an_object_has_its_members(found);
    assert(member_texts(found) =~= seq![
        member_text(first),
        member_text(second),
        member_text(third),
        member_text(fourth),
    ]);
    commas_between(
        member_text(first),
        member_text(second),
        member_text(third),
        member_text(fourth),
    );
}

// ---------------------------------------------------------------------------
// Actions
// ---------------------------------------------------------------------------

/// A reader finds of a candidate the text that it commits, the number of its annotation, and its
/// detail or `null`.
pub proof fn a_candidate_detail_has_its_members(detail: CandidateDetail)
    ensures
        members(detail_json(detail)) == Some(
            seq![
                ("value"@, json_string(detail.value@)),
                ("annotation"@, decimal(detail.annotation as nat)),
                (
                    "detail"@,
                    match detail.detail {
                        Some(text) => json_string(text@),
                        None => "null"@,
                    },
                ),
            ],
        ),
        is_json_value(detail_json(detail)),
{
    reveal_strlit("value");
    reveal_strlit("annotation");
    reveal_strlit("detail");
    reveal_strlit("{\"value\":");
    reveal_strlit(",\"annotation\":");
    reveal_strlit(",\"detail\":");
    reveal_strlit("}");
    a_plain_name_is_written_as_it_is("value"@);
    a_plain_name_is_written_as_it_is("annotation"@);
    a_plain_name_is_written_as_it_is("detail"@);
    let value = json_string(detail.value@);
    let annotation = decimal(detail.annotation as nat);
    let found = json_optional(optional_text(detail.detail));
    a_string_is_a_value(detail.value@);
    a_number_is_a_value(detail.annotation as nat);
    an_optional_string_is_a_value(optional_text(detail.detail));
    three_members(("value"@, value), ("annotation"@, annotation), ("detail"@, found));
    assert("{\"value\":"@ =~= seq!['{'] + json_string("value"@) + seq![':']);
    assert(",\"annotation\":"@ =~= seq![','] + json_string("annotation"@) + seq![':']);
    assert(",\"detail\":"@ =~= seq![','] + json_string("detail"@) + seq![':']);
    assert(detail_json(detail) =~= seq!['{'] + (member_text(("value"@, value)) + seq![',']
        + member_text(("annotation"@, annotation)) + seq![','] + member_text(("detail"@, found)))
        + seq!['}']);
}

proof fn a_text_action_has_its_members(kind: Seq<char>, start: Seq<char>, text: Seq<char>)
    requires
        start == seq!['{'] + json_string("type"@) + seq![':'] + json_string(kind) + seq![',']
            + json_string("text"@) + seq![':'],
    ensures
        members(start + json_string(text) + "}"@) == Some(
            seq![("type"@, json_string(kind)), ("text"@, json_string(text))],
        ),
        is_json_value(start + json_string(text) + "}"@),
{
    reveal_strlit("}");
    a_string_is_a_value(kind);
    a_string_is_a_value(text);
    let first = ("type"@, json_string(kind));
    let second = ("text"@, json_string(text));
    two_members(first, second);
    assert(start + json_string(text) + "}"@ =~= seq!['{'] + (member_text(first) + seq![',']
        + member_text(second)) + seq!['}']);
}

proof fn a_bare_action_has_its_type(kind: Seq<char>, json: Seq<char>)
    requires
        json == seq!['{'] + json_string("type"@) + seq![':'] + json_string(kind) + seq!['}'],
    ensures
        members(json) == Some(seq![("type"@, json_string(kind))]),
        is_json_value(json),
{
    a_string_is_a_value(kind);
    let first = ("type"@, json_string(kind));
    one_member(first);
    assert(json =~= seq!['{'] + member_text(first) + seq!['}']);
}

/// What a reader finds of an action that only has a type.
proof fn bare_actions_have_their_type()
    ensures
        members("{\"type\":\"hide_candidates\"}"@) == Some(
            seq![("type"@, json_string("hide_candidates"@))],
        ),
        members("{\"type\":\"clear\"}"@) == Some(seq![("type"@, json_string("clear"@))]),
        members("{\"type\":\"forward_key\"}"@) == Some(seq![("type"@, json_string("forward_key"@))]),
        is_json_value("{\"type\":\"hide_candidates\"}"@),
        is_json_value("{\"type\":\"clear\"}"@),
        is_json_value("{\"type\":\"forward_key\"}"@),
{
    reveal_strlit("type");
    reveal_strlit("hide_candidates");
    reveal_strlit("clear");
    reveal_strlit("forward_key");
    reveal_strlit("{\"type\":\"hide_candidates\"}");
    reveal_strlit("{\"type\":\"clear\"}");
    reveal_strlit("{\"type\":\"forward_key\"}");
    a_plain_name_is_written_as_it_is("type"@);
    a_plain_name_is_written_as_it_is("hide_candidates"@);
    a_plain_name_is_written_as_it_is("clear"@);
    a_plain_name_is_written_as_it_is("forward_key"@);
    assert("{\"type\":\"hide_candidates\"}"@ =~= seq!['{'] + json_string("type"@) + seq![':']
        + json_string("hide_candidates"@) + seq!['}']);
    assert("{\"type\":\"clear\"}"@ =~= seq!['{'] + json_string("type"@) + seq![':'] + json_string(
        "clear"@,
    ) + seq!['}']);
    assert("{\"type\":\"forward_key\"}"@ =~= seq!['{'] + json_string("type"@) + seq![':']
        + json_string("forward_key"@) + seq!['}']);
    a_bare_action_has_its_type("hide_candidates"@, "{\"type\":\"hide_candidates\"}"@);
    a_bare_action_has_its_type("clear"@, "{\"type\":\"clear\"}"@);
    a_bare_action_has_its_type("forward_key"@, "{\"type\":\"forward_key\"}"@);
}

proof fn texts_stand_behind_their_type()
    ensures
        "{\"type\":\"commit\",\"text\":"@ == seq!['{'] + json_string("type"@) + seq![':']
            + json_string("commit"@) + seq![','] + json_string("text"@) + seq![':'],
        "{\"type\":\"update_preedit\",\"text\":"@ == seq!['{'] + json_string("type"@) + seq![':']
            + json_string("update_preedit"@) + seq![','] + json_string("text"@) + seq![':'],
{
    reveal_strlit("type");
    reveal_strlit("text");
    reveal_strlit("commit");
    reveal_strlit("update_preedit");
    reveal_strlit("{\"type\":\"commit\",\"text\":");
    reveal_strlit("{\"type\":\"update_preedit\",\"text\":");
    a_plain_name_is_written_as_it_is("type"@);
    a_plain_name_is_written_as_it_is("text"@);
    a_plain_name_is_written_as_it_is("commit"@);
    a_plain_name_is_written_as_it_is("update_preedit"@);
    assert("{\"type\":\"commit\",\"text\":"@ =~= seq!['{'] + json_string("type"@) + seq![':']
        + json_string("commit"@) + seq![','] + json_string("text"@) + seq![':']);
    assert("{\"type\":\"update_preedit\",\"text\":"@ =~= seq!['{'] + json_string("type"@) + seq![':']
        + json_string("update_preedit"@) + seq![','] + json_string("text"@) + seq![':']);
}

proof fn selections_stand_behind_their_names()
    ensures
        ",\"selectedStart\":"@ == seq![','] + json_string("selectedStart"@) + seq![':'],
        ",\"selectedLength\":"@ == seq![','] + json_string("selectedLength"@) + seq![':'],
        "}"@ == seq!['}'],
{
    reveal_strlit("selectedStart");
    reveal_strlit("selectedLength");
    reveal_strlit(",\"selectedStart\":");
    reveal_strlit(",\"selectedLength\":");
    reveal_strlit("}");
    a_plain_name_is_written_as_it_is("selectedStart"@);
    a_plain_name_is_written_as_it_is("selectedLength"@);
    assert(",\"selectedStart\":"@ =~= seq![','] + json_string("selectedStart"@) + seq![':']);
    assert(",\"selectedLength\":"@ =~= seq![','] + json_string("selectedLength"@) + seq![':']);
    assert("}"@ =~= seq!['}']);
}

proof fn a_segmented_preedit_has_its_members(text: Seq<char>, start: nat, length: nat)
    ensures
        ({
            let json = "{\"type\":\"update_preedit\",\"text\":"@ + json_string(text)
                + ",\"selectedStart\":"@ + decimal(start) + ",\"selectedLength\":"@ + decimal(length)
                + "}"@;
            &&& members(json) == Some(
                seq![
                    ("type"@, json_string("update_preedit"@)),
                    ("text"@, json_string(text)),
                    ("selectedStart"@, decimal(start)),
                    ("selectedLength"@, decimal(length)),
                ],
            )
            &&& is_json_value(json)
        }),
{
    texts_stand_behind_their_type();
    selections_stand_behind_their_names();
    let first = ("type"@, json_string("update_preedit"@));
    let second = ("text"@, json_string(text));
    let third = ("selectedStart"@, decimal(start));
    let fourth = ("selectedLength"@, decimal(length));
    a_string_is_a_value("update_preedit"@);
    a_string_is_a_value(text);
    a_number_is_a_value(start);
    a_number_is_a_value(length);
    four_members(first, second, third, fourth);
    assert("{\"type\":\"update_preedit\",\"text\":"@ + json_string(text) + ",\"selectedStart\":"@
        + decimal(start) + ",\"selectedLength\":"@ + decimal(length) + "}"@ =~= seq!['{']
        + (member_text(first) + seq![','] + member_text(second) + seq![','] + member_text(third)
        + seq![','] + member_text(fourth)) + seq!['}']);
}

/// The JSON strings of some texts.
pub open spec fn string_texts(values: Seq<String>) -> Seq<Seq<char>> {
    Seq::new(values.len(), |i: int| json_string(values[i]@))
}

/// The JSON of some candidate details.
pub open spec fn detail_texts(details: Seq<CandidateDetail>) -> Seq<Seq<char>> {
    Seq::new(details.len(), |i: int| detail_json(details[i]))
}

proof fn candidates_stand_behind_their_names()
    ensures
        "{\"type\":\"show_candidates\",\"selected\":"@ == seq!['{'] + json_string("type"@) + seq![':']
            + json_string("show_candidates"@) + seq![','] + json_string("selected"@) + seq![':'],
        ",\"candidates\":["@ == seq![','] + json_string("candidates"@) + seq![':', '['],
        "],\"candidateDetails\":["@ == seq![']', ','] + json_string("candidateDetails"@) + seq![
            ':',
            '[',
        ],
        "]}"@ == seq![']', '}'],
{
    reveal_strlit("type");
    reveal_strlit("show_candidates");
    reveal_strlit("selected");
    reveal_strlit("candidates");
    reveal_strlit("candidateDetails");
    reveal_strlit("{\"type\":\"show_candidates\",\"selected\":");
    reveal_strlit(",\"candidates\":[");
    reveal_strlit("],\"candidateDetails\":[");
    reveal_strlit("]}");
    a_plain_name_is_written_as_it_is("type"@);
    a_plain_name_is_written_as_it_is("show_candidates"@);
    a_plain_name_is_written_as_it_is("selected"@);
    a_plain_name_is_written_as_it_is("candidates"@);
    a_plain_name_is_written_as_it_is("candidateDetails"@);
    assert("{\"type\":\"show_candidates\",\"selected\":"@ =~= seq!['{'] + json_string("type"@)
        + seq![':'] + json_string("show_candidates"@) + seq![','] + json_string("selected"@)
        + seq![':']);
    assert(",\"candidates\":["@ =~= seq![','] + json_string("candidates"@) + seq![':', '[']);
    assert("],\"candidateDetails\":["@ =~= seq![']', ','] + json_string("candidateDetails"@)
        + seq![':', '[']);
    assert("]}"@ =~= seq![']', '}']);
}

proof fn shown_candidates_are_put_together(
    names: Seq<Seq<char>>,
    kind: Seq<char>,
    selected: Seq<char>,
    shown: Seq<char>,
    known: Seq<char>,
)
    requires
        names.len() == 4,
    ensures
        (seq!['{'] + names[0] + seq![':'] + kind + seq![','] + names[1] + seq![':']) + selected + (
        seq![','] + names[2] + seq![':', '[']) + shown + (seq![']', ','] + names[3] + seq![':', '['])
            + known + seq![']', '}'] == seq!['{'] + ((names[0] + seq![':'] + kind) + seq![','] + (
        names[1] + seq![':'] + selected) + seq![','] + (names[2] + seq![':'] + (seq!['['] + shown
            + seq![']'])) + seq![','] + (names[3] + seq![':'] + (seq!['['] + known + seq![']'])))
            + seq!['}'],
{
    assert((seq!['{'] + names[0] + seq![':'] + kind + seq![','] + names[1] + seq![':']) + selected + (
    seq![','] + names[2] + seq![':', '[']) + shown + (seq![']', ','] + names[3] + seq![':', '['])
        + known + seq![']', '}'] =~= seq!['{'] + ((names[0] + seq![':'] + kind) + seq![','] + (names[1]
        + seq![':'] + selected) + seq![','] + (names[2] + seq![':'] + (seq!['['] + shown + seq![']']))
        + seq![','] + (names[3] + seq![':'] + (seq!['['] + known + seq![']']))) + seq!['}']);
}

proof fn shown_candidates_have_their_members(
    candidates: Seq<String>,
    details: Seq<CandidateDetail>,
    selected: nat,
)
    ensures
        ({
            let json = "{\"type\":\"show_candidates\",\"selected\":"@ + decimal(selected)
                + ",\"candidates\":["@ + listed(string_texts(candidates))
                + "],\"candidateDetails\":["@ + listed(detail_texts(details)) + "]}"@;
            &&& members(json) == Some(
                seq![
                    ("type"@, json_string("show_candidates"@)),
                    ("selected"@, decimal(selected)),
                    ("candidates"@, list_text(string_texts(candidates))),
                    ("candidateDetails"@, list_text(detail_texts(details))),
                ],
            )
            &&& elements(list_text(string_texts(candidates))) == Some(string_texts(candidates))
            &&& elements(list_text(detail_texts(details))) == Some(detail_texts(details))
            &&& is_json_value(json)
        }),
{
    candidates_stand_behind_their_names();
    let shown = string_texts(candidates);
    let known = detail_texts(details);
    assert forall|i: int| 0 <= i < shown.len() implies is_json_value(#[trigger] shown[i]) by {
        a_string_is_a_value(candidates[i]@);
    }
    assert forall|i: int| 0 <= i < known.len() implies is_json_value(#[trigger] known[i]) by {
        a_candidate_detail_has_its_members(details[i]);
    }
    listed_values_are_found(shown);
    listed_values_are_found(known);
    let first = ("type"@, json_string("show_candidates"@));
    let second = ("selected"@, decimal(selected));
    let third = ("candidates"@, list_text(shown));
    let fourth = ("candidateDetails"@, list_text(known));
    a_string_is_a_value("show_candidates"@);
    a_number_is_a_value(selected);
    four_members(first, second, third, fourth);
    shown_candidates_are_put_together(
        seq![json_string("type"@), json_string("selected"@), json_string("candidates"@), json_string(
            "candidateDetails"@,
        )],
        json_string("show_candidates"@),
        decimal(selected),
        listed(shown),
        listed(known),
    );
}

/// A reader finds in the JSON of an action its type by name and, behind it, what the action holds:
/// a commit has the type `commit` and the text that is committed; a preedit has the type
/// `update_preedit`, its text, and the selected part if there is one; candidates have the selected
/// number, the displayed texts, and what is known of each; the others have a type only.
pub proof fn an_action_has_its_members(action: SlimeAction)
    ensures
        members(action_json(action)) == Some(
            match action {
                SlimeAction::UpdatePreedit(text) => seq![
                    ("type"@, json_string("update_preedit"@)),
                    ("text"@, json_string(text@)),
                ],
                SlimeAction::UpdateSegmentedPreedit { text, selection_start, selection_length } =>
                    seq![
                    ("type"@, json_string("update_preedit"@)),
                    ("text"@, json_string(text@)),
                    ("selectedStart"@, decimal(selection_start as nat)),
                    ("selectedLength"@, decimal(selection_length as nat)),
                ],
                SlimeAction::ShowCandidates { candidates, details, selected } => seq![
                    ("type"@, json_string("show_candidates"@)),
                    ("selected"@, decimal(selected as nat)),
                    ("candidates"@, list_text(string_texts(candidates@))),
                    ("candidateDetails"@, list_text(detail_texts(details@))),
                ],
                SlimeAction::HideCandidates => seq![("type"@, json_string("hide_candidates"@))],
                SlimeAction::Commit(text) => seq![
                    ("type"@, json_string("commit"@)),
                    ("text"@, json_string(text@)),
                ],
                SlimeAction::Clear => seq![("type"@, json_string("clear"@))],
                SlimeAction::ForwardKey => seq![("type"@, json_string("forward_key"@))],
            },
        ),
        action matches SlimeAction::ShowCandidates { candidates, details, .. } ==> {
            &&& elements(list_text(string_texts(candidates@))) == Some(string_texts(candidates@))
            &&& elements(list_text(detail_texts(details@))) == Some(detail_texts(details@))
        },
        is_json_value(action_json(action)),
{
    texts_stand_behind_their_type();
    bare_actions_have_their_type();
    match action {
        SlimeAction::UpdatePreedit(text) => {
            a_text_action_has_its_members(
                "update_preedit"@,
                "{\"type\":\"update_preedit\",\"text\":"@,
                text@,
            );
        },
        SlimeAction::UpdateSegmentedPreedit { text, selection_start, selection_length } => {
            a_segmented_preedit_has_its_members(
                text@,
                selection_start as nat,
                selection_length as nat,
            );
        },
        SlimeAction::ShowCandidates { candidates, details, selected } => {
            shown_candidates_have_their_members(candidates@, details@, selected as nat);
            assert(string_texts(candidates@) =~= candidates@.map_values(
                |candidate: String| json_string(candidate@),
            ));
            assert(detail_texts(details@) =~= details@.map_values(
                |detail: CandidateDetail| detail_json(detail),
            ));
        },
        SlimeAction::Commit(text) => {
            a_text_action_has_its_members("commit"@, "{\"type\":\"commit\",\"text\":"@, text@);
        },
        _ => {},
    }
}

/// The kind of an action: preedit, candidates, hidden candidates, commit, clear, or a forwarded key.
pub open spec fn kind_of(action: SlimeAction) -> int {
    match action {
        SlimeAction::UpdatePreedit(_) => 0,
        SlimeAction::UpdateSegmentedPreedit { .. } => 0,
        SlimeAction::ShowCandidates { .. } => 1,
        SlimeAction::HideCandidates => 2,
        SlimeAction::Commit(_) => 3,
        SlimeAction::Clear => 4,
        SlimeAction::ForwardKey => 5,
    }
}

spec fn kind_names() -> Seq<Seq<char>> {
    seq![
        "update_preedit"@,
        "show_candidates"@,
        "hide_candidates"@,
        "commit"@,
        "clear"@,
        "forward_key"@,
    ]
}

proof fn kind_names_differ(i: int, j: int)
    requires
        0 <= i < 6,
        0 <= j < 6,
        kind_names()[i] == kind_names()[j],
    ensures
        i == j,
{
    reveal_strlit("update_preedit");
    reveal_strlit("show_candidates");
    reveal_strlit("hide_candidates");
    reveal_strlit("commit");
    reveal_strlit("clear");
    reveal_strlit("forward_key");
    let names = kind_names();
    assert(names[0].len() == 14 && names[1].len() == 15 && names[2].len() == 15 && names[3].len()
        == 6 && names[4].len() == 5 && names[5].len() == 11);
    assert(names[1][0] == 's' && names[2][0] == 'h');
}

/// Actions of different kinds never have the same JSON, and neither do two commits or two preedits
/// with different texts.
pub proof fn different_actions_have_different_json(left: SlimeAction, right: SlimeAction)
    requires
        action_json(left) == action_json(right),
    ensures
        kind_of(left) == kind_of(right),
        left matches SlimeAction::Commit(text) ==> right matches SlimeAction::Commit(other)
            && text@ == other@,
        left matches SlimeAction::UpdatePreedit(text) ==> right
            matches SlimeAction::UpdatePreedit(other) && text@ == other@,
{
    an_action_has_its_members(left);
    an_action_has_its_members(right);
    let found = members(action_json(left))->0;
    let other = members(action_json(right))->0;
    assert(found[0] == other[0]);
    let (i, j) = (kind_of(left), kind_of(right));
    assert(found[0].1 == json_string(kind_names()[i]));
    assert(other[0].1 == json_string(kind_names()[j]));
    json_strings_tell_texts_apart(kind_names()[i], kind_names()[j]);
    kind_names_differ(i, j);
    assert(i == j);
    assert(found.len() == other.len());
    match (left, right) {
        (SlimeAction::Commit(text), SlimeAction::Commit(second)) => {
            assert(found[1].1 == other[1].1);
            json_strings_tell_texts_apart(text@, second@);
        },
        (SlimeAction::UpdatePreedit(text), SlimeAction::UpdatePreedit(second)) => {
            assert(found[1].1 == other[1].1);
            json_strings_tell_texts_apart(text@, second@);
        },
        _ => {},
    }
}

// ---------------------------------------------------------------------------
// Responses
// ---------------------------------------------------------------------------

/// The JSON of some actions.
pub open spec fn action_texts(actions: Seq<SlimeAction>) -> Seq<Seq<char>> {
    Seq::new(actions.len(), |i: int| action_json(actions[i]))
}

/// A reader finds in a response to a call that succeeded that it did, and every action in order.
pub proof fn a_success_has_its_actions(actions: Seq<SlimeAction>)
    ensures
        members(success_json(actions)) == Some(
            seq![("ok"@, "true"@), ("actions"@, list_text(action_texts(actions)))],
        ),
        elements(list_text(action_texts(actions))) == Some(action_texts(actions)),
{
    reveal_strlit("ok");
    reveal_strlit("true");
    reveal_strlit("actions");
    reveal_strlit("{\"ok\":true,\"actions\":[");
    reveal_strlit("]}");
    a_plain_name_is_written_as_it_is("ok"@);
    a_plain_name_is_written_as_it_is("actions"@);
    simple_values("true"@);
    let found = action_texts(actions);
    assert(found =~= actions.map_values(|action: SlimeAction| action_json(action)));
    assert forall|i: int| 0 <= i < found.len() implies is_json_value(#[trigger] found[i]) by {
        an_action_has_its_members(actions[i]);
    }
    listed_values_are_found(found);
    let first = ("ok"@, "true"@);
    let second = ("actions"@, list_text(found));
    two_members(first, second);
    assert("{\"ok\":true,\"actions\":["@ =~= seq!['{'] + json_string("ok"@) + seq![':'] + "true"@
        + seq![','] + json_string("actions"@) + seq![':', '[']);
    assert(success_json(actions) =~= seq!['{'] + (member_text(first) + seq![','] + member_text(second))
        + seq!['}']);
}

/// A reader finds in a response to a call that failed that it did, and the error.
pub proof fn a_failure_has_its_error(error: Seq<char>)
    ensures
        members(error_json(error)) == Some(
            seq![("ok"@, "false"@), ("error"@, json_string(error))],
        ),
{
    reveal_strlit("ok");
    reveal_strlit("false");
    reveal_strlit("error");
    reveal_strlit("{\"ok\":false,\"error\":");
    reveal_strlit("}");
    a_plain_name_is_written_as_it_is("ok"@);
    a_plain_name_is_written_as_it_is("error"@);
    simple_values("false"@);
    a_string_is_a_value(error);
    let first = ("ok"@, "false"@);
    let second = ("error"@, json_string(error));
    two_members(first, second);
    assert("{\"ok\":false,\"error\":"@ =~= seq!['{'] + json_string("ok"@) + seq![':'] + "false"@
        + seq![','] + json_string("error"@) + seq![':']);
    assert(error_json(error) =~= seq!['{'] + (member_text(first) + seq![','] + member_text(second))
        + seq!['}']);
}

/// A reader finds of a word its reading and its surface.
pub proof fn a_word_has_its_members(word: (String, String))
    ensures
        members(word_json(word)) == Some(
            seq![("reading"@, json_string(word.0@)), ("surface"@, json_string(word.1@))],
        ),
        is_json_value(word_json(word)),
{
    reveal_strlit("reading");
    reveal_strlit("surface");
    reveal_strlit("{\"reading\":");
    reveal_strlit(",\"surface\":");
    reveal_strlit("}");
    a_plain_name_is_written_as_it_is("reading"@);
    a_plain_name_is_written_as_it_is("surface"@);
    a_string_is_a_value(word.0@);
    a_string_is_a_value(word.1@);
    let first = ("reading"@, json_string(word.0@));
    let second = ("surface"@, json_string(word.1@));
    two_members(first, second);
    assert("{\"reading\":"@ =~= seq!['{'] + json_string("reading"@) + seq![':']);
    assert(",\"surface\":"@ =~= seq![','] + json_string("surface"@) + seq![':']);
    assert(word_json(word) =~= seq!['{'] + (member_text(first) + seq![','] + member_text(second))
        + seq!['}']);
}

/// A reader finds of a pack that could not be loaded its file and the message.
pub proof fn a_load_error_has_its_members(error: PackLoadError)
    ensures
        members(load_error_json(error)) == Some(
            seq![("file"@, json_string(error.file@)), ("message"@, json_string(error.message@))],
        ),
        is_json_value(load_error_json(error)),
{
    reveal_strlit("file");
    reveal_strlit("message");
    reveal_strlit("{\"file\":");
    reveal_strlit(",\"message\":");
    reveal_strlit("}");
    a_plain_name_is_written_as_it_is("file"@);
    a_plain_name_is_written_as_it_is("message"@);
    a_string_is_a_value(error.file@);
    a_string_is_a_value(error.message@);
    let first = ("file"@, json_string(error.file@));
    let second = ("message"@, json_string(error.message@));
    two_members(first, second);
    assert("{\"file\":"@ =~= seq!['{'] + json_string("file"@) + seq![':']);
    assert(",\"message\":"@ =~= seq![','] + json_string("message"@) + seq![':']);
    assert(load_error_json(error) =~= seq!['{'] + (member_text(first) + seq![',']
        + member_text(second)) + seq!['}']);
}

// ---------------------------------------------------------------------------
// Typed views
// ---------------------------------------------------------------------------

/// A typed view names the kind of its action by a fixed number and holds what the action holds; all
/// that an action does not have is absent, zero, or the greatest number.
pub proof fn a_typed_view_holds_its_action<C>(action: SlimeAction, shown: Seq<C>)
    ensures
        ({
            let view = action_model(action, shown);
            &&& view.kind == kind_of(action)
            &&& view.text == match action {
                SlimeAction::UpdatePreedit(text) => Some(text@),
                SlimeAction::UpdateSegmentedPreedit { text, .. } => Some(text@),
                SlimeAction::Commit(text) => Some(text@),
                _ => None,
            }
            &&& view.candidates == (if action is ShowCandidates {
                Some(shown)
            } else {
                None
            })
            &&& view.candidate_count == (if action is ShowCandidates {
                shown.len() as int
            } else {
                0
            })
            &&& view.selected == match action {
                SlimeAction::ShowCandidates { selected, .. } => selected,
                _ => usize::MAX,
            }
            &&& view.selection_start == match action {
                SlimeAction::UpdateSegmentedPreedit { selection_start, .. } => selection_start,
                _ => usize::MAX,
            }
            &&& view.selection_length == match action {
                SlimeAction::UpdateSegmentedPreedit { selection_length, .. } => selection_length,
                _ => 0,
            }
        }),
{
}

/// The candidates that a view shows are those of the action in order, each with its own description.
pub proof fn views_show_the_candidates_in_order(
    candidates: Vec<String>,
    details: Vec<CandidateDetail>,
    selected: usize,
    index: int,
)
    requires
        0 <= index < candidates@.len(),
        index < details@.len(),
    ensures
        ({
            let action = SlimeAction::ShowCandidates { candidates, details, selected };
            &&& displayed(action).len() == candidates@.len()
            &&& displayed(action)[index] == Some(candidates@[index]@)
            &&& index < described(action).len()
            &&& described(action)[index].display == Some(candidates@[index]@)
            &&& described(action)[index].value == Some(details@[index].value@)
            &&& described(action)[index].annotation == details@[index].annotation
            &&& described(action)[index].detail == match details@[index].detail {
                Some(text) => Some(text@),
                None => None,
            }
        }),
{
}

} // verus!
