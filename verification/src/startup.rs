//! What a startup evaluation reads from its probes, and when it fails.

use crate::evaluation_options::optional_text;
use crate::primitives::utf8_text;
use crate::startup_options::StartupOptions;
use crate::text::{
    count_text, decimal, decimal_text, holds_part, joined, lines, lines_of, occurs_in,
    read_unsigned, same_text, signed_decimal, signed_decimal_text, split_at_last, split_last,
    texts, trim, trimmed, unsigned_value, words, words_of,
};
use vstd::prelude::*;
use vstd::string::*;
use vstd::utf8::*;

verus! {

// ---------------------------------------------------------------------------
// Resources
// ---------------------------------------------------------------------------

/// The operating systems whose resource reports are read.
#[derive(Clone, Copy, Debug, PartialEq, Eq, Structural)]
pub enum Platform {
    MacOs,
    Linux,
    Other,
}

/// The platform with a name.
pub open spec fn platform_of(name: Seq<char>) -> Platform {
    if name == "macos"@ {
        Platform::MacOs
    } else if name == "linux"@ {
        Platform::Linux
    } else {
        Platform::Other
    }
}

pub fn platform_named(name: &str) -> (result: Platform)
    ensures
        result == platform_of(name@),
{
    if same_text(name, "macos") {
        Platform::MacOs
    } else if same_text(name, "linux") {
        Platform::Linux
    } else {
        Platform::Other
    }
}

/// The first line from `index` on that holds the text.
pub open spec fn line_with(rows: Seq<Seq<char>>, part: Seq<char>, index: int) -> Option<Seq<char>>
    decreases rows.len() - index,
{
    if index < 0 || index >= rows.len() {
        None
    } else if occurs_in(part, rows[index]) {
        Some(rows[index])
    } else {
        line_with(rows, part, index + 1)
    }
}

/// The maximum resident set size in a resource report of macOS: the first word of its line.
pub open spec fn macos_rss(text: Seq<char>) -> Option<nat> {
    match line_with(lines(text), "maximum resident set size"@, 0) {
        None => None,
        Some(line) => if words(line).len() == 0 {
            None
        } else {
            unsigned_value(words(line)[0])
        },
    }
}

/// The maximum resident set size in a resource report of Linux, in kilobytes: what follows the
/// last colon of its line.
pub open spec fn linux_kilobytes(text: Seq<char>) -> Option<nat> {
    match line_with(lines(text), "Maximum resident set size (kbytes):"@, 0) {
        None => None,
        Some(line) => match split_last(line, ':') {
            None => None,
            Some(parts) => unsigned_value(trim(parts.1)),
        },
    }
}

/// The maximum resident set size in a resource report, in bytes, or why there is none.
pub open spec fn maximum_rss(output: Seq<u8>, platform: Platform) -> Result<nat, Seq<char>> {
    let text = decode_utf8(output);
    let omitted = "startup resource report omitted maximum RSS"@;
    if !valid_utf8(output) {
        Err("startup resource report is not UTF-8"@)
    } else {
        match platform {
            Platform::MacOs => match macos_rss(text) {
                Some(bytes) => if bytes <= u64::MAX {
                    Ok(bytes)
                } else {
                    Err(omitted)
                },
                None => Err(omitted),
            },
            Platform::Linux => match linux_kilobytes(text) {
                Some(kilobytes) => if kilobytes > u64::MAX {
                    Err(omitted)
                } else if kilobytes * 1024 > u64::MAX {
                    Err("startup maximum RSS overflowed"@)
                } else {
                    Ok(kilobytes * 1024)
                },
                None => Err(omitted),
            },
            Platform::Other => Err("startup RSS evaluation supports macOS and Linux"@),
        }
    }
}

fn find_line(text: &str, part: &str) -> (result: Option<String>)
    ensures
        result is Some <==> line_with(lines(text@), part@, 0) is Some,
        result matches Some(line) ==> line_with(lines(text@), part@, 0) == Some(line@),
{
    let rows: Vec<String> = lines_of(text);
    let ghost all = lines(text@);
    assert(all == texts(rows@));
    assert(all.len() == rows@.len());
    for index in 0..rows.len()
        invariant
            all == lines(text@),
            all == texts(rows@),
            all.len() == rows@.len(),
            line_with(all, part@, 0) == line_with(all, part@, index as int),
    {
        assert(all[index as int] == rows@[index as int]@);
        if holds_part(rows[index].as_str(), part) {
            return Some(rows[index].clone());
        }
    }
    None
}

/// The maximum resident set size in a resource report, in bytes.
pub fn parse_maximum_rss(output: &[u8], platform: Platform) -> (result: Result<u64, String>)
    ensures
        result is Ok <==> maximum_rss(output@, platform) is Ok,
        result matches Ok(bytes) ==> maximum_rss(output@, platform) == Ok::<nat, Seq<char>>(
            bytes as nat,
        ),
        result matches Err(problem) ==> maximum_rss(output@, platform) == Err::<nat, Seq<char>>(
            problem@,
        ),
{
    let text: &str = match utf8_text(output) {
        Some(text) => text,
        None => {
            return Err("startup resource report is not UTF-8".to_owned());
        },
    };
    match platform {
        Platform::MacOs => {
            if let Some(line) = find_line(text, "maximum resident set size") {
                let found: Vec<String> = words_of(line.as_str());
                assert(texts(found@) == words(line@));
                assert(texts(found@).len() == found@.len());
                if found.len() > 0 {
                    assert(words(line@)[0] == found@[0]@);
                    if let Some(bytes) = read_unsigned(found[0].as_str(), u64::MAX) {
                        return Ok(bytes);
                    }
                }
            }
            Err("startup resource report omitted maximum RSS".to_owned())
        },
        Platform::Linux => {
            if let Some(line) = find_line(text, "Maximum resident set size (kbytes):") {
                if let Some(parts) = split_at_last(line.as_str(), ':') {
                    let number: String = trimmed(parts.1.as_str());
                    if let Some(kilobytes) = read_unsigned(number.as_str(), u64::MAX) {
                        return match kilobytes.checked_mul(1_024) {
                            Some(bytes) => Ok(bytes),
                            None => Err("startup maximum RSS overflowed".to_owned()),
                        };
                    }
                }
            }
            Err("startup resource report omitted maximum RSS".to_owned())
        },
        Platform::Other => Err("startup RSS evaluation supports macOS and Linux".to_owned()),
    }
}

/// The option with which the time tool reports resources.
pub fn time_flag(platform: Platform) -> (result: Result<&'static str, String>)
    ensures
        result is Ok <==> platform != Platform::Other,
        result matches Ok(flag) ==> flag@ == (if platform == Platform::MacOs {
            "-l"@
        } else {
            "-v"@
        }),
        result matches Err(problem) ==> problem@
            == "startup RSS evaluation supports macOS and Linux"@,
{
    match platform {
        Platform::MacOs => Ok("-l"),
        Platform::Linux => Ok("-v"),
        Platform::Other => Err("startup RSS evaluation supports macOS and Linux".to_owned()),
    }
}

// ---------------------------------------------------------------------------
// Probes
// ---------------------------------------------------------------------------

/// The arguments of a probe.
pub open spec fn probe_arguments_of(
    data_directory: Seq<char>,
    keys: Option<Seq<char>>,
    floors: Option<Seq<char>>,
    expected: Option<usize>,
) -> Seq<Seq<char>> {
    let start = seq!["--probe"@, "--data-dir"@, data_directory];
    if keys is Some && floors is Some && expected is Some {
        start + seq![
            "--verification-keys"@,
            keys->0,
            "--version-floors"@,
            floors->0,
            "--expected-packs"@,
            decimal(expected->0 as nat),
        ]
    } else {
        start
    }
}

/// The arguments with which a probe of a data directory is run.
pub fn probe_arguments(
    data_directory: &str,
    options: &StartupOptions,
    expected_packs: Option<usize>,
) -> (result: Vec<String>)
    ensures
        texts(result@) == probe_arguments_of(
            data_directory@,
            optional_text(options.verification_keys),
            optional_text(options.version_floors),
            expected_packs,
        ),
{
    let mut result: Vec<String> = Vec::new();
    result.push("--probe".to_owned());
    result.push("--data-dir".to_owned());
    result.push(data_directory.to_owned());
    if let Some(keys) = &options.verification_keys {
        if let Some(floors) = &options.version_floors {
            if let Some(expected) = expected_packs {
                result.push("--verification-keys".to_owned());
                result.push(keys.clone());
                result.push("--version-floors".to_owned());
                result.push(floors.clone());
                result.push("--expected-packs".to_owned());
                result.push(count_text(expected));
            }
        }
    }
    assert(texts(result@) =~= probe_arguments_of(
        data_directory@,
        optional_text(options.verification_keys),
        optional_text(options.version_floors),
        expected_packs,
    ));
    result
}

/// What a probe reports.
#[derive(Clone, Copy, Debug, PartialEq, Eq, Structural)]
pub struct ProbeReport {
    pub signed_policy: bool,
    pub pack_count: usize,
    pub entry_count: usize,
    pub context_rule_count: usize,
    pub pack_bytes: u64,
}

/// Why a probe fails; `None` if it reports.
pub open spec fn probe_problem(errors: nat, packs: nat, expected: Option<usize>) -> Option<Seq<char>> {
    if errors > 0 {
        Some("startup probe rejected "@ + decimal(errors) + " dictionary pack file(s)"@)
    } else if packs == 0 {
        Some("startup probe loaded no dictionary packs"@)
    } else {
        match expected {
            Some(count) => if packs != count {
                Some(
                    "startup probe expected "@ + decimal(count as nat) + " pack(s), accepted "@
                        + decimal(packs),
                )
            } else {
                None
            },
            None => None,
        }
    }
}

/// Whether a probe that loaded packs can report.
pub fn check_probe(errors: usize, packs: usize, expected: Option<usize>) -> (result: Result<
    (),
    String,
>)
    ensures
        result is Ok <==> probe_problem(errors as nat, packs as nat, expected) is None,
        result matches Err(problem) ==> probe_problem(errors as nat, packs as nat, expected)
            == Some(problem@),
{
    if errors > 0 {
        let number: String = count_text(errors);
        let start: String = joined("startup probe rejected ", number.as_str());
        return Err(joined(start.as_str(), " dictionary pack file(s)"));
    }
    if packs == 0 {
        return Err("startup probe loaded no dictionary packs".to_owned());
    }
    if let Some(count) = expected {
        if packs != count {
            let wanted: String = count_text(count);
            let found: String = count_text(packs);
            let start: String = joined("startup probe expected ", wanted.as_str());
            let middle: String = joined(start.as_str(), " pack(s), accepted ");
            return Err(joined(middle.as_str(), found.as_str()));
        }
    }
    Ok(())
}

/// What the probes of a data directory reported so far.
#[derive(Clone, Copy, Debug, PartialEq, Eq, Structural)]
pub struct Measurements {
    pub probe: Option<ProbeReport>,
    pub max_rss_bytes: u64,
}

/// The measurements after one more probe, or why they stop: `probe` is what it reported, if that
/// could be read, and `resources` its resource report.
pub open spec fn with_probe(
    state: Measurements,
    success: bool,
    probe: Option<ProbeReport>,
    resources: Seq<u8>,
    platform: Platform,
) -> Result<Measurements, Seq<char>> {
    if !success {
        Err("startup probe failed"@)
    } else {
        match probe {
            None => Err("startup probe returned an invalid aggregate report"@),
            Some(found) => if state.probe is Some && state.probe->0 != found {
                Err("startup probe aggregate changed between iterations"@)
            } else {
                match maximum_rss(resources, platform) {
                    Err(problem) => Err(problem),
                    Ok(bytes) => Ok(
                        Measurements {
                            probe: Some(found),
                            max_rss_bytes: if bytes > state.max_rss_bytes {
                                bytes as u64
                            } else {
                                state.max_rss_bytes
                            },
                        },
                    ),
                }
            },
        }
    }
}

impl Measurements {
    pub fn new() -> (result: Self)
        ensures
            result.probe is None,
            result.max_rss_bytes == 0,
    {
        Measurements { probe: None, max_rss_bytes: 0 }
    }

    /// Takes what a probe reported into account. All probes must report the same.
    pub fn record(
        &mut self,
        success: bool,
        probe: Option<ProbeReport>,
        resources: &[u8],
        platform: Platform,
    ) -> (result: Result<(), String>)
        ensures
            ({
                let owed = with_probe(*old(self), success, probe, resources@, platform);
                &&& result is Ok <==> owed is Ok
                &&& result is Ok ==> owed == Ok::<Measurements, Seq<char>>(*final(self))
                &&& result matches Err(problem) ==> owed == Err::<Measurements, Seq<char>>(
                    problem@,
                ) && *final(self) == *old(self)
            }),
    {
        if !success {
            return Err("startup probe failed".to_owned());
        }
        let found: ProbeReport = match probe {
            Some(found) => found,
            None => {
                return Err("startup probe returned an invalid aggregate report".to_owned());
            },
        };
        if let Some(expected) = self.probe {
            if expected != found {
                return Err("startup probe aggregate changed between iterations".to_owned());
            }
        }
        match parse_maximum_rss(resources, platform) {
            Err(problem) => Err(problem),
            Ok(bytes) => {
                self.probe = Some(found);
                if bytes > self.max_rss_bytes {
                    self.max_rss_bytes = bytes;
                }
                Ok(())
            },
        }
    }
}

/// The measured size never shrinks, and all probes that count reported the same.
pub proof fn probes_agree(
    state: Measurements,
    success: bool,
    probe: Option<ProbeReport>,
    resources: Seq<u8>,
    platform: Platform,
)
    ensures
        with_probe(state, success, probe, resources, platform) matches Ok(after) ==> {
            &&& after.max_rss_bytes >= state.max_rss_bytes
            &&& after.probe == probe
            &&& state.probe is Some ==> after.probe == state.probe
        },
{
}

// ---------------------------------------------------------------------------
// Thresholds
// ---------------------------------------------------------------------------

/// The difference of two sizes.
pub fn signed_difference(left: u64, right: u64) -> (result: Result<i64, String>)
    ensures
        result is Ok <==> i64::MIN <= left - right <= i64::MAX,
        result matches Ok(difference) ==> difference == left - right,
        result matches Err(problem) ==> problem@ == "startup RSS delta overflowed"@,
{
    let difference: i128 = left as i128 - right as i128;
    if difference < i64::MIN as i128 || difference > i64::MAX as i128 {
        Err("startup RSS delta overflowed".to_owned())
    } else {
        Ok(difference as i64)
    }
}

/// The limit that a startup evaluation breaks first. `median` is the problem with the median or
/// with a difference of durations, `p95` the one with the slow startups.
pub open spec fn broken_threshold(
    options: StartupOptions,
    max_rss_bytes: u64,
    rss_delta_bytes: Option<i64>,
    median: Option<Seq<char>>,
    p95: Option<Seq<char>>,
) -> Option<Seq<char>> {
    if median is Some {
        median
    } else if options.max_rss_delta_bytes is Some && rss_delta_bytes is Some && rss_delta_bytes->0
        > options.max_rss_delta_bytes->0 {
        Some(
            "process maximum RSS delta "@ + signed_decimal(rss_delta_bytes->0 as int)
                + " bytes exceeds the allowed maximum"@,
        )
    } else if p95 is Some {
        p95
    } else if options.max_rss_bytes is Some && max_rss_bytes > options.max_rss_bytes->0 {
        Some(
            "process maximum RSS "@ + decimal(max_rss_bytes as nat)
                + " bytes exceeds the allowed maximum"@,
        )
    } else {
        None
    }
}

fn size_message(start: &str, number: String) -> (result: String)
    ensures
        result@ == start@ + number@ + " bytes exceeds the allowed maximum"@,
{
    let middle: String = joined(start, number.as_str());
    joined(middle.as_str(), " bytes exceeds the allowed maximum")
}

/// Whether a startup evaluation keeps its limits. `median` is the problem with the median or with
/// a difference of durations, `p95` the one with the slow startups.
pub fn enforce_thresholds(
    options: &StartupOptions,
    max_rss_bytes: u64,
    rss_delta_bytes: Option<i64>,
    median: Option<String>,
    p95: Option<String>,
) -> (result: Result<(), String>)
    ensures
        ({
            let owed = broken_threshold(
                *options,
                max_rss_bytes,
                rss_delta_bytes,
                optional_text(median),
                optional_text(p95),
            );
            &&& result is Ok <==> owed is None
            &&& result matches Err(problem) ==> owed == Some(problem@)
        }),
{
    match median {
        Some(problem) => {
            return Err(problem);
        },
        None => {},
    }
    if let Some(limit) = options.max_rss_delta_bytes {
        if let Some(delta) = rss_delta_bytes {
            if delta as i128 > limit as i128 {
                return Err(size_message("process maximum RSS delta ", signed_decimal_text(delta)));
            }
        }
    }
    match p95 {
        Some(problem) => {
            return Err(problem);
        },
        None => {},
    }
    if let Some(limit) = options.max_rss_bytes {
        if max_rss_bytes > limit {
            return Err(size_message("process maximum RSS ", decimal_text(max_rss_bytes)));
        }
    }
    Ok(())
}

// ---------------------------------------------------------------------------
// What the reports say
// ---------------------------------------------------------------------------

/// The line that counts is the first one that holds the text.
pub proof fn the_first_line_with_the_text_counts(rows: Seq<Seq<char>>, part: Seq<char>, index: int)
    requires
        0 <= index <= rows.len(),
    ensures
        match line_with(rows, part, index) {
            Some(line) => exists|i: int|
                index <= i < rows.len() && (#[trigger] rows[i]) == line && occurs_in(part, line)
                    && forall|j: int|
                    index <= j < i ==> !occurs_in(part, #[trigger] rows[j]),
            None => forall|i: int|
                index <= i < rows.len() ==> !occurs_in(part, #[trigger] rows[i]),
        },
    decreases rows.len() - index,
{
    if index < rows.len() {
        if occurs_in(part, rows[index]) {
            assert(rows[index] == line_with(rows, part, index)->0);
        } else {
            the_first_line_with_the_text_counts(rows, part, index + 1);
            if line_with(rows, part, index) is Some {
                let line = line_with(rows, part, index)->0;
                let i = choose|i: int|
                    index + 1 <= i < rows.len() && (#[trigger] rows[i]) == line && occurs_in(
                        part,
                        line,
                    ) && forall|j: int|
                        index + 1 <= j < i ==> !occurs_in(part, #[trigger] rows[j]);
                assert(rows[i] == line);
            }
        }
    }
}

/// A report of macOS gives bytes, in the first word of its line; one of Linux gives kilobytes, behind
/// the last colon of its line, of which each has 1024 bytes.
pub proof fn reports_give_their_size(output: Seq<u8>, line: Seq<char>, size: nat)
    requires
        valid_utf8(output),
        size * 1024 <= u64::MAX,
    ensures
        line_with(lines(decode_utf8(output)), "maximum resident set size"@, 0) == Some(line)
            && words(line).len() > 0 && words(line)[0] == decimal(size) ==> maximum_rss(
            output,
            Platform::MacOs,
        ) == Ok::<nat, Seq<char>>(size),
        line_with(lines(decode_utf8(output)), "Maximum resident set size (kbytes):"@, 0) == Some(
            line,
        ) ==> (split_last(line, ':') matches Some(parts) ==> (trim(parts.1) == decimal(size)
            ==> maximum_rss(output, Platform::Linux) == Ok::<nat, Seq<char>>(size * 1024))),
        maximum_rss(output, Platform::Other) is Err,
{
    crate::text::decimal_reads_back(size);
}

/// A probe reports exactly if no pack was rejected, there is one, and there are as many as expected,
/// if a number is expected.
pub proof fn a_probe_needs_every_pack(errors: nat, packs: nat, expected: Option<usize>)
    ensures
        probe_problem(errors, packs, expected) is None <==> errors == 0 && packs > 0 && (
        expected matches Some(count) ==> packs == count),
{
}

/// A probe counts exactly if it succeeded, could be read, reports what the probes before did, and has
/// a size; the greatest size is kept.
pub proof fn the_greatest_size_is_kept(
    state: Measurements,
    success: bool,
    probe: Option<ProbeReport>,
    resources: Seq<u8>,
    platform: Platform,
)
    ensures
        ({
            let found = with_probe(state, success, probe, resources, platform);
            let size = maximum_rss(resources, platform);
            &&& found is Ok <==> success && probe is Some && size is Ok && (state.probe is Some
                ==> state.probe == probe)
            &&& found is Ok ==> {
                let kept = found->Ok_0.max_rss_bytes;
                &&& kept >= state.max_rss_bytes && kept >= size->Ok_0
                &&& kept == state.max_rss_bytes || kept == size->Ok_0
            }
        }),
{
}

/// A startup evaluation passes exactly if no limit that was given is broken.
pub proof fn a_startup_passes_within_its_limits(
    options: StartupOptions,
    max_rss_bytes: u64,
    rss_delta_bytes: Option<i64>,
    median: Option<Seq<char>>,
    p95: Option<Seq<char>>,
)
    ensures
        broken_threshold(options, max_rss_bytes, rss_delta_bytes, median, p95) is None <==> {
            &&& median is None && p95 is None
            &&& options.max_rss_bytes matches Some(limit) ==> max_rss_bytes <= limit
            &&& options.max_rss_delta_bytes matches Some(limit) ==> (rss_delta_bytes matches Some(
                delta,
            ) ==> delta <= limit)
        },
{
}

/// Systems are told by their names.
pub proof fn platforms_have_names(name: Seq<char>)
    ensures
        platform_of("macos"@) == Platform::MacOs,
        platform_of("linux"@) == Platform::Linux,
        name != "macos"@ && name != "linux"@ ==> platform_of(name) == Platform::Other,
{
    reveal_strlit("macos");
    reveal_strlit("linux");
    assert("macos"@[0] != "linux"@[0]);
}

} // verus!
