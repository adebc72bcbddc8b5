//! The options of the tool that builds and verifies dictionary packs.

use vstd::prelude::*;
use vstd::string::*;

use crate::arguments::{
    count_of, count_value, given_from, given_options, given_options_are_arguments, names, Given,
    Stop,
};
use crate::evaluation_options::optional_text;
use crate::text::{joined, same_text, texts};

verus! {

/// How many bytes an input or a pack may have.
pub const MAX_INPUT_BYTES: usize = 33_554_432;

/// How many bytes a line of an input may have.
pub const MAX_PACK_LINE_BYTES: usize = 4_096;

/// How many entries a pack may have.
pub const MAX_ENTRIES: usize = 250_000;

/// How many context rules a pack may have.
pub const MAX_CONTEXT_RULES: usize = 100_000;

/// The cost of a word if none is given.
pub const DEFAULT_WORD_COST: i32 = 500;

/// How to call the pack tool.
pub const PACK_USAGE: &'static str =
    "usage:\n  slime-dictionary-pack validate <pack.slime-dict> [...]\n  slime-dictionary-pack build --id ID --name NAME --version VERSION --license LICENSE \\\n    --minimum-slime-version VERSION --published-at YYYY-MM-DD --provenance VALUE \\\n    [--entries INPUT.tsv] [--context-rules INPUT.tsv] --output OUTPUT.slime-dict [--json]\n  slime-dictionary-pack verify-signed --data-dir PATH --verification-keys KEYS.tsv \\\n    --version-floors FLOORS.tsv --expected-packs N [--json]";

// ---------------------------------------------------------------------------
// Options that are given once
// ---------------------------------------------------------------------------

/// The options of a pack build that take a value.
pub const BUILD_OPTIONS: [&'static str; 10] = [
    "--id",
    "--name",
    "--version",
    "--license",
    "--minimum-slime-version",
    "--published-at",
    "--provenance",
    "--entries",
    "--context-rules",
    "--output",
];

/// The options of a verification that take a value.
pub const VERIFY_OPTIONS: [&'static str; 4] = [
    "--data-dir",
    "--verification-keys",
    "--version-floors",
    "--expected-packs",
];

/// The flag of both.
pub const PACK_FLAGS: [&'static str; 1] = ["--json"];

/// The values of the options that are given at most once, by the place of their names, and
/// whether the report is wanted as JSON.
pub ghost struct OnceView {
    pub slots: Seq<Option<Seq<char>>>,
    pub json: bool,
}

/// The place of a name.
pub open spec fn place_of_name(valued: Seq<Seq<char>>, name: Seq<char>) -> int {
    valued.index_of_first(name)->0
}

/// What is wrong with a value: the number of expected packs has to lie between 1 and 64.
pub open spec fn value_problem(name: Seq<char>, value: Seq<char>) -> Option<Seq<char>> {
    if name != "--expected-packs"@ {
        None
    } else {
        match count_value(value) {
            None => Some("--expected-packs must be an integer"@),
            Some(count) => if 1 <= count <= 64 {
                None
            } else {
                Some("--expected-packs must be between 1 and 64"@)
            },
        }
    }
}

/// The options after one more argument. `command` is what the options belong to.
pub open spec fn with_once(
    state: OnceView,
    arguments: Seq<Seq<char>>,
    valued: Seq<Seq<char>>,
    command: Seq<char>,
    item: Given,
) -> Result<OnceView, Seq<char>> {
    let name = arguments[item.at as int];
    match item.value {
        None => if state.json {
            Err(command + " option --json is duplicated"@)
        } else {
            Ok(OnceView { json: true, ..state })
        },
        Some(at) => {
            let value = arguments[at as int];
            let place = place_of_name(valued, name);
            if value_problem(name, value) is Some {
                Err(value_problem(name, value)->0)
            } else if state.slots[place] is Some {
                Err("option "@ + name + " is duplicated"@)
            } else {
                Ok(OnceView { slots: state.slots.update(place, Some(value)), ..state })
            }
        },
    }
}

/// The options after the first `count` arguments.
pub open spec fn with_all_once(
    state: OnceView,
    arguments: Seq<Seq<char>>,
    valued: Seq<Seq<char>>,
    command: Seq<char>,
    items: Seq<Given>,
    count: int,
) -> Result<OnceView, Seq<char>>
    decreases count,
{
    if count <= 0 {
        Ok(state)
    } else {
        match with_all_once(state, arguments, valued, command, items, count - 1) {
            Err(error) => Err(error),
            Ok(before) => with_once(before, arguments, valued, command, items[count - 1]),
        }
    }
}

/// The options of a command line, before any is missed.
pub open spec fn once_options(
    arguments: Seq<Seq<char>>,
    valued: Seq<Seq<char>>,
    command: Seq<char>,
    unknown: Seq<char>,
) -> Result<OnceView, Seq<char>> {
    let (items, stop) = given_from(arguments, valued, names(PACK_FLAGS@), false, 0);
    let start = OnceView { slots: Seq::new(valued.len(), |i: int| None), json: false };
    match with_all_once(start, arguments, valued, command, items, items.len() as int) {
        Err(error) => Err(error),
        Ok(state) => match stop {
            Stop::End => Ok(state),
            Stop::Unknown(at) => Err(unknown + PACK_USAGE@),
            Stop::Missing(at) => Err("option is missing a value"@),
        },
    }
}

proof fn once_error_stays(
    state: OnceView,
    arguments: Seq<Seq<char>>,
    valued: Seq<Seq<char>>,
    command: Seq<char>,
    items: Seq<Given>,
    low: int,
    high: int,
)
    requires
        with_all_once(state, arguments, valued, command, items, low) is Err,
        0 <= low <= high,
    ensures
        with_all_once(state, arguments, valued, command, items, high) == with_all_once(
            state,
            arguments,
            valued,
            command,
            items,
            low,
        ),
    decreases high - low,
{
    if low < high {
        once_error_stays(state, arguments, valued, command, items, low, high - 1);
    }
}

/// The options as they are read.
struct OnceOptions {
    slots: Vec<Option<String>>,
    json: bool,
}

spec fn slot_views(slots: Seq<Option<String>>) -> Seq<Option<Seq<char>>> {
    Seq::new(slots.len(), |i: int| optional_text(slots[i]))
}

impl OnceOptions {
    spec fn once(&self) -> OnceView {
        OnceView { slots: slot_views(self.slots@), json: self.json }
    }

    fn set_argument(
        &mut self,
        arguments: &[String],
        valued: &[&str],
        command: &str,
        item: Given,
    ) -> (result: Result<(), String>)
        requires
            old(self).slots@.len() == valued@.len(),
            item.at < arguments@.len(),
            item.value matches Some(value) ==> value < arguments@.len(),
            item.value is Some ==> names(valued@).contains(arguments@[item.at as int]@),
        ensures
            final(self).slots@.len() == valued@.len(),
            match with_once(
                old(self).once(),
                texts(arguments@),
                names(valued@),
                command@,
                item,
            ) {
                Ok(state) => result is Ok && final(self).once() == state,
                Err(error) => result is Err && result->Err_0@ == error,
            },
    {
        let name: &str = arguments[item.at].as_str();
        assert(texts(arguments@)[item.at as int] == name@);
        match item.value {
            None => {
                if self.json {
                    return Err(joined(command, " option --json is duplicated"));
                }
                self.json = true;
                Ok(())
            },
            Some(at) => {
                let value: &str = arguments[at].as_str();
                assert(texts(arguments@)[at as int] == value@);
                if same_text(name, "--expected-packs") {
                    match count_of(value) {
                        None => return Err("--expected-packs must be an integer".to_owned()),
                        Some(count) => if count < 1 || count > 64 {
                            return Err("--expected-packs must be between 1 and 64".to_owned());
                        },
                    }
                }
                let place: usize = name_place(valued, name);
                let ghost before = self.once();
                assert(before.slots[place as int] == optional_text(self.slots@[place as int]));
                if self.slots[place].is_some() {
                    let start: String = joined("option ", name);
                    return Err(joined(start.as_str(), " is duplicated"));
                }
                self.slots[place] = Some(value.to_owned());
                assert(slot_views(self.slots@) =~= before.slots.update(
                    place as int,
                    Some(value@),
                ));
                Ok(())
            },
        }
    }
}

fn name_place(valued: &[&str], name: &str) -> (result: usize)
    requires
        names(valued@).contains(name@),
    ensures
        result == place_of_name(names(valued@), name@),
        result < valued@.len(),
{
    let ghost all = names(valued@);
    for index in 0..valued.len()
        invariant
            all == names(valued@),
            all.contains(name@),
            forall|i: int| 0 <= i < index ==> all[i] != name@,
    {
        assert(all[index as int] == valued@[index as int]@);
        if same_text(valued[index], name) {
            proof {
                all.index_of_first_ensures(name@);
            }
            return index;
        }
    }
    proof {
        let i = choose|i: int| 0 <= i < all.len() && all[i] == name@;
        assert(all[i] != name@);
    }
    0
}

fn read_once_options(arguments: &[String], valued: &[&str], command: &str, unknown: &str) -> (result:
    Result<OnceOptions, String>)
    ensures
        match once_options(texts(arguments@), names(valued@), command@, unknown@) {
            Ok(state) => result is Ok && result->Ok_0.once() == state && result->Ok_0.slots@.len()
                == valued@.len(),
            Err(error) => result is Err && result->Err_0@ == error,
        },
{
    let flags: [&'static str; 1] = PACK_FLAGS;
    let (items, stop) = given_options(arguments, valued, flags.as_slice(), false, 0);
    let ghost all = texts(arguments@);
    let ghost start = OnceView {
        slots: Seq::new(names(valued@).len(), |i: int| None),
        json: false,
    };
    let mut slots: Vec<Option<String>> = Vec::new();
    for index in 0..valued.len()
        invariant
            slots@.len() == index,
            forall|i: int| 0 <= i < index ==> (#[trigger] slots@[i]) is None,
    {
        slots.push(None);
    }
    let mut options: OnceOptions = OnceOptions { slots, json: false };
    assert(options.once().slots =~= start.slots);
    for index in 0..items.len()
        invariant
            all == texts(arguments@),
            start == (OnceView {
                slots: Seq::new(names(valued@).len(), |i: int| None),
                json: false,
            }),
            options.slots@.len() == valued@.len(),
            (items@, stop) == given_from(all, names(valued@), names(PACK_FLAGS@), false, 0),
            forall|i: int|
                0 <= i < items@.len() ==> {
                    &&& (#[trigger] items@[i]).at < arguments@.len()
                    &&& items@[i].value matches Some(value) ==> value < arguments@.len()
                    &&& items@[i].value is Some <==> names(valued@).contains(
                        arguments@[items@[i].at as int]@,
                    )
                },
            with_all_once(start, all, names(valued@), command@, items@, index as int) == Ok::<
                OnceView,
                Seq<char>,
            >(options.once()),
    {
        match options.set_argument(arguments, valued, command, items[index]) {
            Ok(()) => {},
            Err(error) => {
                proof {
                    once_error_stays(
                        start,
                        all,
                        names(valued@),
                        command@,
                        items@,
                        index + 1,
                        items@.len() as int,
                    );
                }
                return Err(error);
            },
        }
    }
    match stop {
        Stop::End => Ok(options),
        Stop::Unknown(_) => Err(joined(unknown, PACK_USAGE)),
        Stop::Missing(_) => Err("option is missing a value".to_owned()),
    }
}

/// The error for an option that is not given.
pub open spec fn missing_option(name: Seq<char>) -> Seq<char> {
    "option "@ + name + " is required\n"@ + PACK_USAGE@
}

/// The first of the required options that is not given, from `index` on.
pub open spec fn first_missing(
    slots: Seq<Option<Seq<char>>>,
    valued: Seq<Seq<char>>,
    required: Seq<int>,
    index: int,
) -> Option<Seq<char>>
    decreases required.len() - index,
{
    if index < 0 || index >= required.len() {
        None
    } else if slots[required[index]] is None {
        Some(valued[required[index]])
    } else {
        first_missing(slots, valued, required, index + 1)
    }
}

/// Takes the value of a slot.
fn required_slot(options: &OnceOptions, place: usize, name: &str) -> (result: Result<String, String>)
    requires
        place < options.slots@.len(),
    ensures
        match options.once().slots[place as int] {
            Some(value) => result is Ok && result->Ok_0@ == value,
            None => result is Err && result->Err_0@ == missing_option(name@),
        },
{
    match &options.slots[place] {
        Some(value) => Ok(value.clone()),
        None => {
            let start: String = joined("option ", name);
            let line: String = joined(start.as_str(), " is required\n");
            Err(joined(line.as_str(), PACK_USAGE))
        },
    }
}

fn optional_slot(options: &OnceOptions, place: usize) -> (result: Option<String>)
    requires
        place < options.slots@.len(),
    ensures
        optional_text(result) == options.once().slots[place as int],
{
    match &options.slots[place] {
        Some(value) => Some(value.clone()),
        None => None,
    }
}

/// What a pack is built from.
#[derive(Debug, PartialEq, Eq)]
pub struct BuildOptions {
    pub id: String,
    pub name: String,
    pub version: String,
    pub license: String,
    pub minimum_slime_version: String,
    pub published_at: String,
    pub provenance: String,
    pub entries: Option<String>,
    pub context_rules: Option<String>,
    pub output: String,
    pub json: bool,
}

impl BuildOptions {
    /// The values in the order of the options' names.
    pub open spec fn slots(self) -> Seq<Option<Seq<char>>> {
        seq![
            Some(self.id@),
            Some(self.name@),
            Some(self.version@),
            Some(self.license@),
            Some(self.minimum_slime_version@),
            Some(self.published_at@),
            Some(self.provenance@),
            optional_text(self.entries),
            optional_text(self.context_rules),
            Some(self.output@),
        ]
    }
}

/// The places of the options that a build requires.
pub open spec fn build_required() -> Seq<int> {
    seq![0, 1, 2, 3, 4, 5, 6, 9]
}

/// Reads the options of a build.
pub fn parse_build_options(arguments: &[String]) -> (result: Result<BuildOptions, String>)
    ensures
        match once_options(
            texts(arguments@),
            names(BUILD_OPTIONS@),
            "build"@,
            "unknown build option\n"@,
        ) {
            Err(error) => result is Err && result->Err_0@ == error,
            Ok(state) => match first_missing(
                state.slots,
                names(BUILD_OPTIONS@),
                build_required(),
                0,
            ) {
                Some(name) => result is Err && result->Err_0@ == missing_option(name),
                None => result is Ok && result->Ok_0.slots() == state.slots && result->Ok_0.json
                    == state.json,
            },
        },
{
    let valued: [&'static str; 10] = BUILD_OPTIONS;
    let options: OnceOptions = match read_once_options(
        arguments,
        valued.as_slice(),
        "build",
        "unknown build option\n",
    ) {
        Ok(options) => options,
        Err(error) => return Err(error),
    };
    proof {
        let slots = options.once().slots;
        let all = names(BUILD_OPTIONS@);
        let required = build_required();
        assert(valued@ == BUILD_OPTIONS@);
        assert(forall|i: int| 0 <= i < 10 ==> all[i] == BUILD_OPTIONS@[i]@);
        assert(first_missing(slots, all, required, 8) is None);
        assert(first_missing(slots, all, required, 7) == (if slots[9] is None {
            Some(all[9])
        } else {
            None
        }));
        assert(first_missing(slots, all, required, 6) == (if slots[6] is None {
            Some(all[6])
        } else {
            first_missing(slots, all, required, 7)
        }));
        assert(first_missing(slots, all, required, 5) == (if slots[5] is None {
            Some(all[5])
        } else {
            first_missing(slots, all, required, 6)
        }));
        assert(first_missing(slots, all, required, 4) == (if slots[4] is None {
            Some(all[4])
        } else {
            first_missing(slots, all, required, 5)
        }));
        assert(first_missing(slots, all, required, 3) == (if slots[3] is None {
            Some(all[3])
        } else {
            first_missing(slots, all, required, 4)
        }));
        assert(first_missing(slots, all, required, 2) == (if slots[2] is None {
            Some(all[2])
        } else {
            first_missing(slots, all, required, 3)
        }));
        assert(first_missing(slots, all, required, 1) == (if slots[1] is None {
            Some(all[1])
        } else {
            first_missing(slots, all, required, 2)
        }));
    }
    let id: String = match required_slot(&options, 0, "--id") {
        Ok(value) => value,
        Err(error) => return Err(error),
    };
    let name: String = match required_slot(&options, 1, "--name") {
        Ok(value) => value,
        Err(error) => return Err(error),
    };
    let version: String = match required_slot(&options, 2, "--version") {
        Ok(value) => value,
        Err(error) => return Err(error),
    };
    let license: String = match required_slot(&options, 3, "--license") {
        Ok(value) => value,
        Err(error) => return Err(error),
    };
    let minimum_slime_version: String = match required_slot(
        &options,
        4,
        "--minimum-slime-version",
    ) {
        Ok(value) => value,
        Err(error) => return Err(error),
    };
    let published_at: String = match required_slot(&options, 5, "--published-at") {
        Ok(value) => value,
        Err(error) => return Err(error),
    };
    let provenance: String = match required_slot(&options, 6, "--provenance") {
        Ok(value) => value,
        Err(error) => return Err(error),
    };
    let output: String = match required_slot(&options, 9, "--output") {
        Ok(value) => value,
        Err(error) => return Err(error),
    };
    let built: BuildOptions = BuildOptions {
        id,
        name,
        version,
        license,
        minimum_slime_version,
        published_at,
        provenance,
        entries: optional_slot(&options, 7),
        context_rules: optional_slot(&options, 8),
        output,
        json: options.json,
    };
    assert(built.slots() =~= options.once().slots);
    Ok(built)
}

/// What signed packs are verified with.
#[derive(Debug, PartialEq, Eq)]
pub struct VerifySignedOptions {
    pub data_directory: String,
    pub verification_keys: String,
    pub version_floors: String,
    pub expected_packs: usize,
    pub json: bool,
}

/// Reads the options of a verification.
pub fn parse_verify_signed_options(arguments: &[String]) -> (result: Result<
    VerifySignedOptions,
    String,
>)
    ensures
        match once_options(
            texts(arguments@),
            names(VERIFY_OPTIONS@),
            "verify"@,
            "unknown verify-signed option\n"@,
        ) {
            Err(error) => result is Err && result->Err_0@ == error,
            Ok(state) => match first_missing(
                state.slots,
                names(VERIFY_OPTIONS@),
                seq![0, 1, 2, 3],
                0,
            ) {
                Some(name) => result is Err && result->Err_0@ == missing_option(name),
                None => {
                    &&& result is Ok
                    &&& Some(result->Ok_0.data_directory@) == state.slots[0]
                    &&& Some(result->Ok_0.verification_keys@) == state.slots[1]
                    &&& Some(result->Ok_0.version_floors@) == state.slots[2]
                    &&& count_value(state.slots[3]->0) == Some(result->Ok_0.expected_packs)
                    &&& 1 <= result->Ok_0.expected_packs <= 64
                    &&& result->Ok_0.json == state.json
                },
            },
        },
{
    let count: usize = arguments.len();
    let valued: [&'static str; 4] = VERIFY_OPTIONS;
    let options: OnceOptions = match read_once_options(
        arguments,
        valued.as_slice(),
        "verify",
        "unknown verify-signed option\n",
    ) {
        Ok(options) => options,
        Err(error) => return Err(error),
    };
    proof {
        let slots = options.once().slots;
        let all = names(VERIFY_OPTIONS@);
        let required = seq![0int, 1, 2, 3];
        assert(valued@ == VERIFY_OPTIONS@);
        assert(forall|i: int| 0 <= i < 4 ==> all[i] == VERIFY_OPTIONS@[i]@);
        assert(first_missing(slots, all, required, 4) is None);
        assert(first_missing(slots, all, required, 3) == (if slots[3] is None {
            Some(all[3])
        } else {
            None
        }));
        assert(first_missing(slots, all, required, 2) == (if slots[2] is None {
            Some(all[2])
        } else {
            first_missing(slots, all, required, 3)
        }));
        assert(first_missing(slots, all, required, 1) == (if slots[1] is None {
            Some(all[1])
        } else {
            first_missing(slots, all, required, 2)
        }));
        given_options_are_arguments(texts(arguments@), all, names(PACK_FLAGS@), false, 0);
        expected_packs_were_checked(
            texts(arguments@),
            given_from(texts(arguments@), all, names(PACK_FLAGS@), false, 0).0,
            given_from(texts(arguments@), all, names(PACK_FLAGS@), false, 0).0.len() as int,
        );
    }
    let data_directory: String = match required_slot(&options, 0, "--data-dir") {
        Ok(value) => value,
        Err(error) => return Err(error),
    };
    let verification_keys: String = match required_slot(&options, 1, "--verification-keys") {
        Ok(value) => value,
        Err(error) => return Err(error),
    };
    let version_floors: String = match required_slot(&options, 2, "--version-floors") {
        Ok(value) => value,
        Err(error) => return Err(error),
    };
    let expected: String = match required_slot(&options, 3, "--expected-packs") {
        Ok(value) => value,
        Err(error) => return Err(error),
    };
    let expected_packs: usize = match count_of(expected.as_str()) {
        Some(count) => count,
        None => 0,
    };
    Ok(
        VerifySignedOptions {
            data_directory,
            verification_keys,
            version_floors,
            expected_packs,
            json: options.json,
        },
    )
}

/// A number of expected packs that was taken lies between 1 and 64.
proof fn expected_packs_were_checked(arguments: Seq<Seq<char>>, items: Seq<Given>, count: int)
    requires
        count <= items.len(),
        forall|i: int|
            0 <= i < items.len() && (#[trigger] items[i]).value is Some ==> names(
                VERIFY_OPTIONS@,
            ).contains(arguments[items[i].at as int]),
    ensures
        ({
            let valued = names(VERIFY_OPTIONS@);
            let start = OnceView { slots: Seq::new(valued.len(), |i: int| None), json: false };
            with_all_once(start, arguments, valued, "verify"@, items, count) matches Ok(state) ==> {
                &&& state.slots.len() == 4
                &&& state.slots[3] matches Some(value) ==> value_problem(
                    "--expected-packs"@,
                    value,
                ) is None
            }
        }),
    decreases count,
{
    let valued = names(VERIFY_OPTIONS@);
    let start = OnceView { slots: Seq::new(valued.len(), |i: int| None), json: false };
    assert(valued.len() == 4);
    assert(valued[3] == "--expected-packs"@);
    if count > 0 {
        expected_packs_were_checked(arguments, items, count - 1);
        let name = arguments[items[count - 1].at as int];
        if valued.contains(name) {
            valued.index_of_first_ensures(name);
        }
        match with_all_once(start, arguments, valued, "verify"@, items, count) {
            Ok(state) => {
                if items[count - 1].value is Some {
                    assert(valued.contains(name));
                    assert(valued[place_of_name(valued, name)] == name);
                }
            },
            Err(_) => {},
        }
    }
}

} // verus!
