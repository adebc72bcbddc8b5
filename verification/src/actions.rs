//! Actions of the engine, as JSON and as typed views for platform adapters.

use crate::evaluation_options::optional_text;
use crate::json::{
    json_optional, json_string, optional_view, write_json_string, write_optional_json_string,
};
use crate::private_corpus::push_bytes;
use crate::text::{count_text, decimal, decimal_text};
use vstd::prelude::*;
use vstd::string::*;
use vstd::utf8::*;

verus! {

pub const ACTION_UPDATE_PREEDIT: u32 = 0;
pub const ACTION_SHOW_CANDIDATES: u32 = 1;
pub const ACTION_HIDE_CANDIDATES: u32 = 2;
pub const ACTION_COMMIT: u32 = 3;
pub const ACTION_CLEAR: u32 = 4;
pub const ACTION_FORWARD_KEY: u32 = 5;

/// What is known of a candidate: the text that it commits, the number of its annotation, and a
/// detail.
#[derive(Debug, PartialEq, Eq)]
pub struct CandidateDetail {
    pub value: String,
    pub annotation: u32,
    pub detail: Option<String>,
}

/// What the engine asks the platform to do.
#[derive(Debug, PartialEq, Eq)]
pub enum SlimeAction {
    UpdatePreedit(String),
    UpdateSegmentedPreedit { text: String, selection_start: usize, selection_length: usize },
    ShowCandidates { candidates: Vec<String>, details: Vec<CandidateDetail>, selected: usize },
    HideCandidates,
    Commit(String),
    Clear,
    ForwardKey,
}

// ---------------------------------------------------------------------------
// JSON
// ---------------------------------------------------------------------------

/// Some values with commas between them.
pub open spec fn listed(values: Seq<Seq<char>>) -> Seq<char>
    decreases values.len(),
{
    if values.len() == 0 {
        Seq::empty()
    } else if values.len() == 1 {
        values[0]
    } else {
        listed(values.drop_last()) + ","@ + values.last()
    }
}

proof fn one_more_is_listed(values: Seq<Seq<char>>, index: int)
    requires
        0 <= index < values.len(),
    ensures
        listed(values.take(index + 1)) == listed(values.take(index)) + (if index > 0 {
            ","@
        } else {
            Seq::empty()
        }) + values[index],
{
    let more = values.take(index + 1);
    assert(more.drop_last() =~= values.take(index));
    assert(more.last() == values[index]);
    assert(listed(more) =~= listed(values.take(index)) + (if index > 0 {
        ","@
    } else {
        Seq::empty()
    }) + values[index]);
}

fn separate(output: &mut String, index: usize)
    ensures
        final(output)@ == old(output)@ + (if index > 0 {
            ","@
        } else {
            Seq::empty()
        }),
{
    let ghost start = output@;
    if index > 0 {
        output.append(",");
    } else {
        assert(start =~= start + Seq::<char>::empty());
    }
}

/// A candidate with what is known of it, as JSON.
pub open spec fn detail_json(detail: CandidateDetail) -> Seq<char> {
    "{\"value\":"@ + json_string(detail.value@) + ",\"annotation\":"@ + decimal(
        detail.annotation as nat,
    ) + ",\"detail\":"@ + json_optional(optional_text(detail.detail)) + "}"@
}

/// An action as JSON.
pub open spec fn action_json(action: SlimeAction) -> Seq<char> {
    match action {
        SlimeAction::UpdatePreedit(text) => "{\"type\":\"update_preedit\",\"text\":"@
            + json_string(text@) + "}"@,
        SlimeAction::UpdateSegmentedPreedit { text, selection_start, selection_length } =>
            "{\"type\":\"update_preedit\",\"text\":"@ + json_string(text@)
            + ",\"selectedStart\":"@ + decimal(selection_start as nat) + ",\"selectedLength\":"@
            + decimal(selection_length as nat) + "}"@,
        SlimeAction::ShowCandidates { candidates, details, selected } =>
            "{\"type\":\"show_candidates\",\"selected\":"@ + decimal(selected as nat)
            + ",\"candidates\":["@ + listed(
            candidates@.map_values(|candidate: String| json_string(candidate@)),
        ) + "],\"candidateDetails\":["@ + listed(
            details@.map_values(|detail: CandidateDetail| detail_json(detail)),
        ) + "]}"@,
        SlimeAction::HideCandidates => "{\"type\":\"hide_candidates\"}"@,
        SlimeAction::Commit(text) => "{\"type\":\"commit\",\"text\":"@ + json_string(text@)
            + "}"@,
        SlimeAction::Clear => "{\"type\":\"clear\"}"@,
        SlimeAction::ForwardKey => "{\"type\":\"forward_key\"}"@,
    }
}

/// The text of an optional value, borrowed.
fn borrowed(text: &Option<String>) -> (result: Option<&str>)
    ensures
        optional_view(result) == optional_text(*text),
{
    match text {
        Some(found) => Some(found.as_str()),
        None => None,
    }
}

fn write_strings(output: &mut String, values: &[String])
    ensures
        final(output)@ == old(output)@ + listed(
            values@.map_values(|value: String| json_string(value@)),
        ),
{
    let ghost start = output@;
    let ghost all = values@.map_values(|value: String| json_string(value@));
    assert(listed(all.take(0)) =~= Seq::<char>::empty());
    assert(output@ =~= start + listed(all.take(0)));
    for index in 0..values.len()
        invariant
            all == values@.map_values(|value: String| json_string(value@)),
            output@ == start + listed(all.take(index as int)),
    {
        proof {
            one_more_is_listed(all, index as int);
        }
        separate(output, index);
        write_json_string(output, values[index].as_str());
        assert(output@ =~= start + listed(all.take(index + 1)));
    }
    assert(all.take(all.len() as int) =~= all);
}

fn write_detail(output: &mut String, detail: &CandidateDetail)
    ensures
        final(output)@ == old(output)@ + detail_json(*detail),
{
    let ghost start = output@;
    output.append("{\"value\":");
    write_json_string(output, detail.value.as_str());
    output.append(",\"annotation\":");
    output.append(decimal_text(detail.annotation as u64).as_str());
    output.append(",\"detail\":");
    write_optional_json_string(output, borrowed(&detail.detail));
    output.append("}");
    assert(output@ =~= start + detail_json(*detail));
}

fn write_details(output: &mut String, details: &[CandidateDetail])
    ensures
        final(output)@ == old(output)@ + listed(
            details@.map_values(|detail: CandidateDetail| detail_json(detail)),
        ),
{
    let ghost start = output@;
    let ghost all = details@.map_values(|detail: CandidateDetail| detail_json(detail));
    assert(listed(all.take(0)) =~= Seq::<char>::empty());
    assert(output@ =~= start + listed(all.take(0)));
    for index in 0..details.len()
        invariant
            all == details@.map_values(|detail: CandidateDetail| detail_json(detail)),
            output@ == start + listed(all.take(index as int)),
    {
        proof {
            one_more_is_listed(all, index as int);
        }
        separate(output, index);
        write_detail(output, &details[index]);
        assert(output@ =~= start + listed(all.take(index + 1)));
    }
    assert(all.take(all.len() as int) =~= all);
}

/// Writes an action as JSON.
pub fn write_action(output: &mut String, action: &SlimeAction)
    ensures
        final(output)@ == old(output)@ + action_json(*action),
{
    let ghost start = output@;
    match action {
        SlimeAction::UpdatePreedit(text) => {
            output.append("{\"type\":\"update_preedit\",\"text\":");
            write_json_string(output, text.as_str());
            output.append("}");
        },
        SlimeAction::UpdateSegmentedPreedit { text, selection_start, selection_length } => {
            output.append("{\"type\":\"update_preedit\",\"text\":");
            write_json_string(output, text.as_str());
            output.append(",\"selectedStart\":");
            output.append(count_text(*selection_start).as_str());
            output.append(",\"selectedLength\":");
            output.append(count_text(*selection_length).as_str());
            output.append("}");
        },
        SlimeAction::ShowCandidates { candidates, details, selected } => {
            output.append("{\"type\":\"show_candidates\",\"selected\":");
            output.append(count_text(*selected).as_str());
            output.append(",\"candidates\":[");
            write_strings(output, candidates.as_slice());
            output.append("],\"candidateDetails\":[");
            write_details(output, details.as_slice());
            output.append("]}");
        },
        SlimeAction::HideCandidates => {
            output.append("{\"type\":\"hide_candidates\"}");
        },
        SlimeAction::Commit(text) => {
            output.append("{\"type\":\"commit\",\"text\":");
            write_json_string(output, text.as_str());
            output.append("}");
        },
        SlimeAction::Clear => {
            output.append("{\"type\":\"clear\"}");
        },
        SlimeAction::ForwardKey => {
            output.append("{\"type\":\"forward_key\"}");
        },
    }
    assert(output@ =~= start + action_json(*action));
}

/// The response to a call that succeeded.
pub open spec fn success_json(actions: Seq<SlimeAction>) -> Seq<char> {
    "{\"ok\":true,\"actions\":["@ + listed(
        actions.map_values(|action: SlimeAction| action_json(action)),
    ) + "]}"@
}

/// The response to a call that succeeded: the actions as JSON.
pub fn success_response(actions: &[SlimeAction]) -> (result: String)
    ensures
        result@ == success_json(actions@),
{
    let mut output: String = String::new();
    output.append("{\"ok\":true,\"actions\":[");
    let ghost start = output@;
    let ghost all = actions@.map_values(|action: SlimeAction| action_json(action));
    assert(start =~= "{\"ok\":true,\"actions\":["@);
    assert(output@ =~= start + listed(all.take(0)));
    for index in 0..actions.len()
        invariant
            all == actions@.map_values(|action: SlimeAction| action_json(action)),
            output@ == start + listed(all.take(index as int)),
    {
        proof {
            one_more_is_listed(all, index as int);
        }
        separate(&mut output, index);
        write_action(&mut output, &actions[index]);
        assert(output@ =~= start + listed(all.take(index + 1)));
    }
    assert(all.take(all.len() as int) =~= all);
    output.append("]}");
    output
}

/// The response to a call that failed.
pub open spec fn error_json(error: Seq<char>) -> Seq<char> {
    "{\"ok\":false,\"error\":"@ + json_string(error) + "}"@
}

/// The response to a call that failed: the error as JSON.
pub fn error_response(error: &str) -> (result: String)
    ensures
        result@ == error_json(error@),
{
    let mut output: String = String::new();
    output.append("{\"ok\":false,\"error\":");
    write_json_string(&mut output, error);
    output.append("}");
    assert(output@ =~= error_json(error@));
    output
}

// ---------------------------------------------------------------------------
// Dictionary packs
// ---------------------------------------------------------------------------

/// A word of a dictionary, as JSON.
pub open spec fn word_json(word: (String, String)) -> Seq<char> {
    "{\"reading\":"@ + json_string(word.0@) + ",\"surface\":"@ + json_string(word.1@) + "}"@
}

/// The response with the words of a dictionary, readings first.
pub fn words_response(words: &[(String, String)]) -> (result: String)
    ensures
        result@ == "{\"ok\":true,\"words\":["@ + listed(
            words@.map_values(|word: (String, String)| word_json(word)),
        ) + "]}"@,
{
    let mut output: String = String::new();
    output.append("{\"ok\":true,\"words\":[");
    let ghost start = output@;
    let ghost all = words@.map_values(|word: (String, String)| word_json(word));
    assert(start =~= "{\"ok\":true,\"words\":["@);
    assert(output@ =~= start + listed(all.take(0)));
    for index in 0..words.len()
        invariant
            all == words@.map_values(|word: (String, String)| word_json(word)),
            output@ == start + listed(all.take(index as int)),
    {
        proof {
            one_more_is_listed(all, index as int);
        }
        separate(&mut output, index);
        output.append("{\"reading\":");
        write_json_string(&mut output, words[index].0.as_str());
        output.append(",\"surface\":");
        write_json_string(&mut output, words[index].1.as_str());
        output.append("}");
        assert(output@ =~= start + listed(all.take(index + 1)));
    }
    assert(all.take(all.len() as int) =~= all);
    output.append("]}");
    output
}

/// What is known of an installed dictionary pack.
#[derive(Debug, PartialEq, Eq)]
pub struct InstalledPack {
    pub id: String,
    pub format_version: u32,
    pub name: String,
    pub version: String,
    pub license: String,
    pub minimum_slime_version: Option<String>,
    pub published_at: Option<String>,
    pub provenance: Option<String>,
    pub entries_sha256: Option<String>,
    pub payload_sha256: Option<String>,
    pub pack_sha256: String,
    pub entry_count: usize,
    pub context_rule_count: usize,
}

/// A dictionary pack that could not be loaded.
#[derive(Debug, PartialEq, Eq)]
pub struct PackLoadError {
    pub file: String,
    pub message: String,
}

/// A dictionary pack as JSON.
#[verifier::opaque]
pub open spec fn pack_json(pack: InstalledPack) -> Seq<char> {
    "{\"id\":"@ + json_string(pack.id@) + ",\"formatVersion\":"@ + decimal(
        pack.format_version as nat,
    ) + ",\"name\":"@ + json_string(pack.name@) + ",\"version\":"@ + json_string(pack.version@)
        + ",\"license\":"@ + json_string(pack.license@) + ",\"minimumSlimeVersion\":"@
        + json_optional(optional_text(pack.minimum_slime_version)) + ",\"publishedAt\":"@
        + json_optional(optional_text(pack.published_at)) + ",\"provenance\":"@ + json_optional(
        optional_text(pack.provenance),
    ) + ",\"entriesSHA256\":"@ + json_optional(optional_text(pack.entries_sha256))
        + ",\"payloadSHA256\":"@ + json_optional(optional_text(pack.payload_sha256))
        + ",\"packSHA256\":"@ + json_string(pack.pack_sha256@) + ",\"entryCount\":"@ + decimal(
        pack.entry_count as nat,
    ) + ",\"contextRuleCount\":"@ + decimal(pack.context_rule_count as nat) + "}"@
}

/// A pack that could not be loaded, as JSON.
pub open spec fn load_error_json(error: PackLoadError) -> Seq<char> {
    "{\"file\":"@ + json_string(error.file@) + ",\"message\":"@ + json_string(error.message@)
        + "}"@
}

fn write_pack(output: &mut String, pack: &InstalledPack)
    ensures
        final(output)@ == old(output)@ + pack_json(*pack),
{
    let mut text: String = "{\"id\":".to_owned();
    write_json_string(&mut text, pack.id.as_str());
    text.append(",\"formatVersion\":");
    text.append(decimal_text(pack.format_version as u64).as_str());
    text.append(",\"name\":");
    write_json_string(&mut text, pack.name.as_str());
    text.append(",\"version\":");
    write_json_string(&mut text, pack.version.as_str());
    text.append(",\"license\":");
    write_json_string(&mut text, pack.license.as_str());
    text.append(",\"minimumSlimeVersion\":");
    write_optional_json_string(&mut text, borrowed(&pack.minimum_slime_version));
    text.append(",\"publishedAt\":");
    write_optional_json_string(&mut text, borrowed(&pack.published_at));
    text.append(",\"provenance\":");
    write_optional_json_string(&mut text, borrowed(&pack.provenance));
    text.append(",\"entriesSHA256\":");
    write_optional_json_string(&mut text, borrowed(&pack.entries_sha256));
    text.append(",\"payloadSHA256\":");
    write_optional_json_string(&mut text, borrowed(&pack.payload_sha256));
    text.append(",\"packSHA256\":");
    write_json_string(&mut text, pack.pack_sha256.as_str());
    text.append(",\"entryCount\":");
    text.append(count_text(pack.entry_count).as_str());
    text.append(",\"contextRuleCount\":");
    text.append(count_text(pack.context_rule_count).as_str());
    text.append("}");
    proof {
        reveal(pack_json);
    }
    output.append(text.as_str());
}

fn write_packs(output: &mut String, packs: &[InstalledPack])
    ensures
        final(output)@ == old(output)@ + listed(
            packs@.map_values(|pack: InstalledPack| pack_json(pack)),
        ),
{
    let ghost start = output@;
    let ghost all = packs@.map_values(|pack: InstalledPack| pack_json(pack));
    assert(output@ =~= start + listed(all.take(0)));
    for index in 0..packs.len()
        invariant
            all == packs@.map_values(|pack: InstalledPack| pack_json(pack)),
            output@ == start + listed(all.take(index as int)),
    {
        proof {
            one_more_is_listed(all, index as int);
        }
        separate(output, index);
        write_pack(output, &packs[index]);
        assert(output@ =~= start + listed(all.take(index + 1)));
    }
    assert(all.take(all.len() as int) =~= all);
}

fn write_load_errors(output: &mut String, errors: &[PackLoadError])
    ensures
        final(output)@ == old(output)@ + listed(
            errors@.map_values(|error: PackLoadError| load_error_json(error)),
        ),
{
    let ghost start = output@;
    let ghost all = errors@.map_values(|error: PackLoadError| load_error_json(error));
    assert(output@ =~= start + listed(all.take(0)));
    for index in 0..errors.len()
        invariant
            all == errors@.map_values(|error: PackLoadError| load_error_json(error)),
            output@ == start + listed(all.take(index as int)),
    {
        proof {
            one_more_is_listed(all, index as int);
        }
        separate(output, index);
        output.append("{\"file\":");
        write_json_string(output, errors[index].file.as_str());
        output.append(",\"message\":");
        write_json_string(output, errors[index].message.as_str());
        output.append("}");
        assert(output@ =~= start + listed(all.take(index + 1)));
    }
    assert(all.take(all.len() as int) =~= all);
}

/// The response with the installed dictionary packs and those that could not be loaded.
pub fn packs_response(packs: &[InstalledPack], errors: &[PackLoadError]) -> (result: String)
    ensures
        result@ == "{\"ok\":true,\"packs\":["@ + listed(
            packs@.map_values(|pack: InstalledPack| pack_json(pack)),
        ) + "],\"errors\":["@ + listed(
            errors@.map_values(|error: PackLoadError| load_error_json(error)),
        ) + "]}"@,
{
    let mut output: String = String::new();
    output.append("{\"ok\":true,\"packs\":[");
    write_packs(&mut output, packs);
    output.append("],\"errors\":[");
    write_load_errors(&mut output, errors);
    output.append("]}");
    assert(output@ =~= "{\"ok\":true,\"packs\":["@ + listed(
        packs@.map_values(|pack: InstalledPack| pack_json(pack)),
    ) + "],\"errors\":["@ + listed(
        errors@.map_values(|error: PackLoadError| load_error_json(error)),
    ) + "]}"@);
    output
}

/// The bytes of a response.
#[derive(Debug)]
pub struct SlimeBuffer {
    pub data: Vec<u8>,
}

impl SlimeBuffer {
    /// The text as UTF-8.
    pub fn from_string(value: String) -> (result: Self)
        ensures
            result.data@ == encode_utf8(value@),
    {
        let mut data: Vec<u8> = Vec::new();
        push_bytes(&mut data, value.as_str());
        assert(data@ =~= encode_utf8(value@));
        SlimeBuffer { data }
    }
}

// ---------------------------------------------------------------------------
// Typed views
// ---------------------------------------------------------------------------

/// A text that a view borrows, or none at all.
#[derive(Clone, Copy, Debug, PartialEq, Eq)]
pub struct SlimeStringView<'a> {
    pub text: Option<&'a str>,
}

impl<'a> View for SlimeStringView<'a> {
    type V = Option<Seq<char>>;

    open spec fn view(&self) -> Option<Seq<char>> {
        optional_view(self.text)
    }
}

impl<'a> SlimeStringView<'a> {
    pub fn new(value: &'a str) -> (result: Self)
        ensures
            result@ == Some(value@),
    {
        SlimeStringView { text: Some(value) }
    }

    pub fn empty() -> (result: Self)
        ensures
            result@ is None,
    {
        SlimeStringView { text: None }
    }
}

/// An action as typed values. Numbers that mean nothing for the action are the greatest ones.
#[derive(Debug)]
pub struct SlimeActionView<'a> {
    pub kind: u32,
    pub text: SlimeStringView<'a>,
    pub candidates: Option<Vec<SlimeStringView<'a>>>,
    pub candidate_count: usize,
    pub selected: usize,
    pub selection_start: usize,
    pub selection_length: usize,
}

/// A candidate with what is known of it.
#[derive(Clone, Copy, Debug)]
pub struct SlimeCandidateViewV2<'a> {
    pub value: SlimeStringView<'a>,
    pub display: SlimeStringView<'a>,
    pub annotation: u32,
    pub detail: SlimeStringView<'a>,
}

/// An action as typed values, with what is known of its candidates.
#[derive(Debug)]
pub struct SlimeActionViewV2<'a> {
    pub kind: u32,
    pub text: SlimeStringView<'a>,
    pub candidates: Option<Vec<SlimeCandidateViewV2<'a>>>,
    pub candidate_count: usize,
    pub selected: usize,
    pub selection_start: usize,
    pub selection_length: usize,
}

/// A candidate as a mathematical value.
pub ghost struct CandidateModel {
    pub value: Option<Seq<char>>,
    pub display: Option<Seq<char>>,
    pub annotation: u32,
    pub detail: Option<Seq<char>>,
}

/// A typed view of an action as a mathematical value, with candidates of type `C`.
pub ghost struct ActionModel<C> {
    pub kind: u32,
    pub text: Option<Seq<char>>,
    pub candidates: Option<Seq<C>>,
    pub candidate_count: int,
    pub selected: usize,
    pub selection_start: usize,
    pub selection_length: usize,
}

impl<'a> View for SlimeActionView<'a> {
    type V = ActionModel<Option<Seq<char>>>;

    open spec fn view(&self) -> ActionModel<Option<Seq<char>>> {
        ActionModel {
            kind: self.kind,
            text: self.text@,
            candidates: match self.candidates {
                Some(candidates) => Some(string_views(candidates@)),
                None => None,
            },
            candidate_count: self.candidate_count as int,
            selected: self.selected,
            selection_start: self.selection_start,
            selection_length: self.selection_length,
        }
    }
}

impl<'a> View for SlimeCandidateViewV2<'a> {
    type V = CandidateModel;

    open spec fn view(&self) -> CandidateModel {
        CandidateModel {
            value: self.value@,
            display: self.display@,
            annotation: self.annotation,
            detail: self.detail@,
        }
    }
}

impl<'a> View for SlimeActionViewV2<'a> {
    type V = ActionModel<CandidateModel>;

    open spec fn view(&self) -> ActionModel<CandidateModel> {
        ActionModel {
            kind: self.kind,
            text: self.text@,
            candidates: match self.candidates {
                Some(candidates) => Some(candidate_models(candidates@)),
                None => None,
            },
            candidate_count: self.candidate_count as int,
            selected: self.selected,
            selection_start: self.selection_start,
            selection_length: self.selection_length,
        }
    }
}

/// The texts of some views.
pub open spec fn string_views(views: Seq<SlimeStringView<'_>>) -> Seq<Option<Seq<char>>> {
    Seq::new(views.len(), |i: int| views[i]@)
}

/// The candidates of some views.
pub open spec fn candidate_models(views: Seq<SlimeCandidateViewV2<'_>>) -> Seq<CandidateModel> {
    Seq::new(views.len(), |i: int| views[i]@)
}

/// An action that shows no candidates.
pub open spec fn plain_model<C>(kind: u32, text: Option<Seq<char>>) -> ActionModel<C> {
    ActionModel {
        kind,
        text,
        candidates: None,
        candidate_count: 0,
        selected: usize::MAX,
        selection_start: usize::MAX,
        selection_length: 0,
    }
}

/// The typed view of an action whose candidates, if it shows any, are `shown`.
pub open spec fn action_model<C>(action: SlimeAction, shown: Seq<C>) -> ActionModel<C> {
    match action {
        SlimeAction::UpdatePreedit(text) => plain_model(ACTION_UPDATE_PREEDIT, Some(text@)),
        SlimeAction::UpdateSegmentedPreedit { text, selection_start, selection_length } =>
            ActionModel {
                selection_start,
                selection_length,
                ..plain_model(ACTION_UPDATE_PREEDIT, Some(text@))
            },
        SlimeAction::ShowCandidates { selected, .. } => ActionModel {
            candidates: Some(shown),
            candidate_count: shown.len() as int,
            selected,
            ..plain_model(ACTION_SHOW_CANDIDATES, None)
        },
        SlimeAction::HideCandidates => plain_model(ACTION_HIDE_CANDIDATES, None),
        SlimeAction::Commit(text) => plain_model(ACTION_COMMIT, Some(text@)),
        SlimeAction::Clear => plain_model(ACTION_CLEAR, None),
        SlimeAction::ForwardKey => plain_model(ACTION_FORWARD_KEY, None),
    }
}

/// The displayed candidates of an action.
pub open spec fn displayed(action: SlimeAction) -> Seq<Option<Seq<char>>> {
    match action {
        SlimeAction::ShowCandidates { candidates, .. } => Seq::new(
            candidates@.len(),
            |i: int| Some(candidates@[i]@),
        ),
        _ => Seq::empty(),
    }
}

/// How many candidates have a description: as many as there are of both.
pub open spec fn paired(candidates: Seq<String>, details: Seq<CandidateDetail>) -> nat {
    if candidates.len() <= details.len() {
        candidates.len()
    } else {
        details.len()
    }
}

/// The candidates of an action with what is known of them; those without a description are left
/// out.
pub open spec fn described(action: SlimeAction) -> Seq<CandidateModel> {
    match action {
        SlimeAction::ShowCandidates { candidates, details, .. } => Seq::new(
            paired(candidates@, details@),
            |i: int|
                CandidateModel {
                    value: Some(details@[i].value@),
                    display: Some(candidates@[i]@),
                    annotation: details@[i].annotation,
                    detail: optional_text(details@[i].detail),
                },
        ),
        _ => Seq::empty(),
    }
}

/// Whether each candidate of an action is described.
pub open spec fn is_described(action: SlimeAction) -> bool {
    action matches SlimeAction::ShowCandidates { candidates, details, .. } ==> candidates@.len()
        == details@.len()
}

fn borrowed_candidates<'a>(candidates: &'a Vec<String>) -> (result: Vec<SlimeStringView<'a>>)
    ensures
        string_views(result@) == Seq::new(candidates@.len(), |i: int| Some(candidates@[i]@)),
{
    let mut result: Vec<SlimeStringView<'a>> = Vec::new();
    for index in 0..candidates.len()
        invariant
            result@.len() == index,
            forall|i: int| 0 <= i < index ==> (#[trigger] result@[i])@ == Some(candidates@[i]@),
    {
        result.push(SlimeStringView::new(candidates[index].as_str()));
    }
    assert(string_views(result@) =~= Seq::new(
        candidates@.len(),
        |i: int| Some(candidates@[i]@),
    ));
    result
}

fn action_without_payload<'a>(kind: u32) -> (result: SlimeActionView<'a>)
    ensures
        result@ == plain_model::<Option<Seq<char>>>(kind, None),
{
    SlimeActionView {
        kind,
        text: SlimeStringView::empty(),
        candidates: None,
        candidate_count: 0,
        selected: usize::MAX,
        selection_start: usize::MAX,
        selection_length: 0,
    }
}

/// The typed view of an action.
pub fn visit_action<'a>(action: &'a SlimeAction) -> (result: SlimeActionView<'a>)
    ensures
        result@ == action_model(*action, displayed(*action)),
{
    match action {
        SlimeAction::UpdatePreedit(text) => SlimeActionView {
            kind: ACTION_UPDATE_PREEDIT,
            text: SlimeStringView::new(text.as_str()),
            candidates: None,
            candidate_count: 0,
            selected: usize::MAX,
            selection_start: usize::MAX,
            selection_length: 0,
        },
        SlimeAction::UpdateSegmentedPreedit { text, selection_start, selection_length } =>
            SlimeActionView {
                kind: ACTION_UPDATE_PREEDIT,
                text: SlimeStringView::new(text.as_str()),
                candidates: None,
                candidate_count: 0,
                selected: usize::MAX,
                selection_start: *selection_start,
                selection_length: *selection_length,
            },
        SlimeAction::ShowCandidates { candidates, selected, .. } => {
            let views: Vec<SlimeStringView<'a>> = borrowed_candidates(candidates);
            let count: usize = views.len();
            assert(string_views(views@).len() == views@.len());
            SlimeActionView {
                kind: ACTION_SHOW_CANDIDATES,
                text: SlimeStringView::empty(),
                candidates: Some(views),
                candidate_count: count,
                selected: *selected,
                selection_start: usize::MAX,
                selection_length: 0,
            }
        },
        SlimeAction::HideCandidates => action_without_payload(ACTION_HIDE_CANDIDATES),
        SlimeAction::Commit(text) => SlimeActionView {
            kind: ACTION_COMMIT,
            text: SlimeStringView::new(text.as_str()),
            candidates: None,
            candidate_count: 0,
            selected: usize::MAX,
            selection_start: usize::MAX,
            selection_length: 0,
        },
        SlimeAction::Clear => action_without_payload(ACTION_CLEAR),
        SlimeAction::ForwardKey => action_without_payload(ACTION_FORWARD_KEY),
    }
}

fn borrowed_details<'a>(candidates: &'a Vec<String>, details: &'a Vec<CandidateDetail>) -> (result:
    Vec<SlimeCandidateViewV2<'a>>)
    ensures
        candidate_models(result@) == Seq::new(
            paired(candidates@, details@),
            |i: int|
                CandidateModel {
                    value: Some(details@[i].value@),
                    display: Some(candidates@[i]@),
                    annotation: details@[i].annotation,
                    detail: optional_text(details@[i].detail),
                },
        ),
{
    let mut result: Vec<SlimeCandidateViewV2<'a>> = Vec::new();
    let count: usize = if candidates.len() <= details.len() {
        candidates.len()
    } else {
        details.len()
    };
    for index in 0..count
        invariant
            count == paired(candidates@, details@),
            result@.len() == index,
            forall|i: int|
                0 <= i < index ==> (#[trigger] result@[i])@ == (CandidateModel {
                    value: Some(details@[i].value@),
                    display: Some(candidates@[i]@),
                    annotation: details@[i].annotation,
                    detail: optional_text(details@[i].detail),
                }),
    {
        result.push(
            SlimeCandidateViewV2 {
                value: SlimeStringView::new(details[index].value.as_str()),
                display: SlimeStringView::new(candidates[index].as_str()),
                annotation: details[index].annotation,
                detail: SlimeStringView { text: borrowed(&details[index].detail) },
            },
        );
    }
    assert(candidate_models(result@) =~= Seq::new(
        paired(candidates@, details@),
        |i: int|
            CandidateModel {
                value: Some(details@[i].value@),
                display: Some(candidates@[i]@),
                annotation: details@[i].annotation,
                detail: optional_text(details@[i].detail),
            },
    ));
    result
}

fn action_without_payload_v2<'a>(kind: u32) -> (result: SlimeActionViewV2<'a>)
    ensures
        result@ == plain_model::<CandidateModel>(kind, None),
{
    SlimeActionViewV2 {
        kind,
        text: SlimeStringView::empty(),
        candidates: None,
        candidate_count: 0,
        selected: usize::MAX,
        selection_start: usize::MAX,
        selection_length: 0,
    }
}

/// The typed view of an action, with what is known of its candidates.
pub fn visit_action_v2<'a>(action: &'a SlimeAction) -> (result: SlimeActionViewV2<'a>)
    ensures
        result@ == action_model(*action, described(*action)),
{
    match action {
        SlimeAction::UpdatePreedit(text) => SlimeActionViewV2 {
            kind: ACTION_UPDATE_PREEDIT,
            text: SlimeStringView::new(text.as_str()),
            candidates: None,
            candidate_count: 0,
            selected: usize::MAX,
            selection_start: usize::MAX,
            selection_length: 0,
        },
        SlimeAction::UpdateSegmentedPreedit { text, selection_start, selection_length } =>
            SlimeActionViewV2 {
                kind: ACTION_UPDATE_PREEDIT,
                text: SlimeStringView::new(text.as_str()),
                candidates: None,
                candidate_count: 0,
                selected: usize::MAX,
                selection_start: *selection_start,
                selection_length: *selection_length,
            },
        SlimeAction::ShowCandidates { candidates, details, selected } => {
            let views: Vec<SlimeCandidateViewV2<'a>> = borrowed_details(candidates, details);
            let count: usize = views.len();
            assert(candidate_models(views@).len() == views@.len());
            SlimeActionViewV2 {
                kind: ACTION_SHOW_CANDIDATES,
                text: SlimeStringView::empty(),
                candidates: Some(views),
                candidate_count: count,
                selected: *selected,
                selection_start: usize::MAX,
                selection_length: 0,
            }
        },
        SlimeAction::HideCandidates => action_without_payload_v2(ACTION_HIDE_CANDIDATES),
        SlimeAction::Commit(text) => SlimeActionViewV2 {
            kind: ACTION_COMMIT,
            text: SlimeStringView::new(text.as_str()),
            candidates: None,
            candidate_count: 0,
            selected: usize::MAX,
            selection_start: usize::MAX,
            selection_length: 0,
        },
        SlimeAction::Clear => action_without_payload_v2(ACTION_CLEAR),
        SlimeAction::ForwardKey => action_without_payload_v2(ACTION_FORWARD_KEY),
    }
}

/// Both typed views of an action say the same: they differ only in what is known of the
/// candidates, and the second displays the candidates of the first.
pub proof fn both_views_agree(action: SlimeAction)
    requires
        is_described(action),
    ensures
        ({
            let first = action_model(action, displayed(action));
            let second = action_model(action, described(action));
            &&& first.kind == second.kind
            &&& first.text == second.text
            &&& first.candidate_count == second.candidate_count
            &&& first.selected == second.selected
            &&& first.selection_start == second.selection_start
            &&& first.selection_length == second.selection_length
            &&& first.candidates is Some <==> second.candidates is Some
            &&& displayed(action) == described(action).map_values(
                |candidate: CandidateModel| candidate.display,
            )
        }),
{
    assert(displayed(action) =~= described(action).map_values(
        |candidate: CandidateModel| candidate.display,
    ));
}

} // verus!
