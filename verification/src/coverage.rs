//! How much of an annotated corpus dictionaries cover.

use crate::context_rules::more;
use crate::corpus::{copied_pairs, pairs, TextPair};
use crate::kana::{hiragana_text, katakana_to_hiragana};
use crate::order::{is_increasing, TextSet};
use crate::pair_table::PairTable;
use crate::primitives::debug_text;
use crate::tables::{pair_key, pair_key_of};
use crate::text::{
    ascii_letter, characters, columns_of, is_ascii_letter, is_white_space, joined, lines, lines_of,
    same_text, split_at_first, split_at_last, split_first, split_last, split_on, text_between,
    texts, trim, trimmed, white_space, words, words_of,
};
use vstd::prelude::*;
use vstd::string::*;

verus! {

// ---------------------------------------------------------------------------
// Dictionary sources
// ---------------------------------------------------------------------------

/// How a dictionary is written.
#[derive(Clone, Copy, Debug, PartialEq, Eq, Structural)]
pub enum DictionaryFormat {
    /// A reading and a surface on each line, with a tab between them.
    Tsv,
    /// An SKK dictionary.
    Skk,
}

/// The format with a name.
pub open spec fn format_named(value: Seq<char>) -> Option<DictionaryFormat> {
    if value == "tsv"@ {
        Some(DictionaryFormat::Tsv)
    } else if value == "skk"@ {
        Some(DictionaryFormat::Skk)
    } else {
        None
    }
}

/// The message about a format that is not known.
pub open spec fn format_problem(value: Seq<char>) -> Seq<char> {
    "unsupported dictionary format "@ + crate::primitives::text_debug(value)
        + "; expected tsv or skk"@
}

impl DictionaryFormat {
    pub fn parse(value: &str) -> (result: Result<Self, String>)
        ensures
            result is Ok <==> format_named(value@) is Some,
            result matches Ok(format) ==> format_named(value@) == Some(format),
            result matches Err(problem) ==> problem@ == format_problem(value@),
    {
        if same_text(value, "tsv") {
            return Ok(DictionaryFormat::Tsv);
        }
        if same_text(value, "skk") {
            proof {
                reveal_strlit("tsv");
                reveal_strlit("skk");
                assert("tsv"@[0] != "skk"@[0]);
            }
            return Ok(DictionaryFormat::Skk);
        }
        let quoted: String = debug_text(value);
        let start: String = joined("unsupported dictionary format ", quoted.as_str());
        Err(joined(start.as_str(), "; expected tsv or skk"))
    }
}

/// The entry of a line with tabs: its first two columns, if neither is empty.
pub open spec fn tsv_entries(line: Seq<char>) -> Seq<TextPair> {
    let columns = split_on(line, '\t');
    if columns.len() >= 2 && columns[0].len() > 0 && columns[1].len() > 0 {
        seq![(columns[0], columns[1])]
    } else {
        Seq::empty()
    }
}

/// The reading and surface of a line with tabs.
pub fn visit_tsv_entries(line: &str) -> (result: Vec<(String, String)>)
    ensures
        pairs(result@) == tsv_entries(line@),
{
    let columns: Vec<String> = columns_of(line, '\t');
    let ghost all = split_on(line@, '\t');
    assert(texts(columns@) == all);
    assert(all.len() == columns@.len());
    let mut result: Vec<(String, String)> = Vec::new();
    if columns.len() >= 2 {
        assert(all[0] == columns@[0]@ && all[1] == columns@[1]@);
        if !columns[0].as_str().is_empty() && !columns[1].as_str().is_empty() {
            result.push((columns[0].clone(), columns[1].clone()));
        }
    }
    assert(pairs(result@) =~= tsv_entries(line@));
    result
}

/// Where the first white space stands at or behind `index`; the length if there is none.
pub open spec fn white_space_from(text: Seq<char>, index: int) -> int
    decreases text.len() - index,
{
    if index >= text.len() || is_white_space(text[index]) {
        index
    } else {
        white_space_from(text, index + 1)
    }
}

/// `text` without the slashes at its start.
pub open spec fn without_leading_slashes(text: Seq<char>) -> Seq<char>
    decreases text.len(),
{
    if text.len() > 0 && text[0] == '/' {
        without_leading_slashes(text.drop_first())
    } else {
        text
    }
}

/// `text` without the slashes at its end.
pub open spec fn without_trailing_slashes(text: Seq<char>) -> Seq<char>
    decreases text.len(),
{
    if text.len() > 0 && text.last() == '/' {
        without_trailing_slashes(text.drop_last())
    } else {
        text
    }
}

/// `text` without the slashes around it.
fn without_slashes(text: &str) -> (result: String)
    ensures
        result@ == without_trailing_slashes(without_leading_slashes(text@)),
{
    let letters: Vec<char> = characters(text);
    let mut start: usize = 0;
    assert(text@.skip(0) =~= text@);
    while start < letters.len() && letters[start] == '/'
        invariant
            letters@ == text@,
            start <= text@.len(),
            without_leading_slashes(text@.skip(start as int)) == without_leading_slashes(text@),
        decreases text@.len() - start,
    {
        assert(text@.skip(start as int).drop_first() =~= text@.skip(start + 1));
        start += 1;
    }
    let ghost rest = text@.skip(start as int);
    assert(without_leading_slashes(text@) == rest);
    let mut end: usize = letters.len();
    assert(rest.take(rest.len() as int) =~= rest);
    while start < end && letters[end - 1] == '/'
        invariant
            letters@ == text@,
            rest == text@.skip(start as int),
            start <= end <= text@.len(),
            without_trailing_slashes(rest.take(end - start)) == without_trailing_slashes(rest),
        decreases end,
    {
        assert(rest.take(end - start).drop_last() =~= rest.take(end - start - 1));
        assert(rest.take(end - start).last() == letters@[end - 1]);
        end -= 1;
    }
    if start < end {
        assert(rest.take(end - start).last() == letters@[end - 1]);
    }
    assert(without_trailing_slashes(rest) == rest.take(end - start));
    assert(rest.take(end - start) =~= text@.subrange(start as int, end as int));
    text_between(letters.as_slice(), start, end)
}

/// The surface of an SKK candidate: what stands before its annotation.
pub open spec fn candidate_surface(candidate: Seq<char>) -> Seq<char> {
    match split_first(candidate, ';') {
        Some(parts) => parts.0,
        None => candidate,
    }
}

/// The entries of the candidates of a reading. Candidates without a surface, or with a
/// bracketed one, are none.
pub open spec fn candidate_entries(reading: Seq<char>, candidates: Seq<Seq<char>>) -> Seq<TextPair>
    decreases candidates.len(),
{
    if candidates.len() == 0 {
        Seq::empty()
    } else {
        let before = candidate_entries(reading, candidates.drop_last());
        let surface = candidate_surface(candidates.last());
        if surface.len() > 0 && surface[0] != '[' {
            before.push((reading, surface))
        } else {
            before
        }
    }
}

/// The entries of a line of an SKK dictionary. Comments have none, nor have readings that end in
/// a letter, which stand for words with okurigana.
pub open spec fn skk_entries(line: Seq<char>) -> Seq<TextPair> {
    let at = white_space_from(line, 0);
    let reading = line.take(at);
    if line.len() > 0 && line[0] == ';' {
        Seq::empty()
    } else if at >= line.len() || at == 0 || is_ascii_letter(line[at - 1]) {
        Seq::empty()
    } else {
        candidate_entries(
            reading,
            split_on(
                without_trailing_slashes(without_leading_slashes(trim(line.skip(at + 1)))),
                '/',
            ),
        )
    }
}

/// The readings and surfaces of a line of an SKK dictionary.
pub fn visit_skk_entries(line: &str) -> (result: Vec<(String, String)>)
    ensures
        pairs(result@) == skk_entries(line@),
{
    let letters: Vec<char> = characters(line);
    let mut result: Vec<(String, String)> = Vec::new();
    assert(pairs(result@) =~= Seq::<TextPair>::empty());
    if letters.len() > 0 && letters[0] == ';' {
        return result;
    }
    let mut at: usize = 0;
    while at < letters.len() && !white_space(letters[at])
        invariant
            letters@ == line@,
            at <= line@.len(),
            white_space_from(line@, 0) == white_space_from(line@, at as int),
        decreases line@.len() - at,
    {
        at += 1;
    }
    if at >= letters.len() || at == 0 || ascii_letter(letters[at - 1]) {
        return result;
    }
    let reading: String = text_between(letters.as_slice(), 0, at);
    let rest: String = text_between(letters.as_slice(), at + 1, letters.len());
    assert(reading@ =~= line@.take(at as int));
    assert(rest@ =~= line@.skip(at + 1));
    let inner: String = trimmed(rest.as_str());
    let bare: String = without_slashes(inner.as_str());
    let candidates: Vec<String> = columns_of(bare.as_str(), '/');
    let ghost all = split_on(bare@, '/');
    assert(texts(candidates@) == all);
    assert(all.len() == candidates@.len());
    assert(all.take(0) =~= Seq::<Seq<char>>::empty());
    for index in 0..candidates.len()
        invariant
            all == texts(candidates@),
            all.len() == candidates@.len(),
            pairs(result@) == candidate_entries(reading@, all.take(index as int)),
    {
        assert(all.take(index + 1).drop_last() =~= all.take(index as int));
        assert(all[index as int] == candidates@[index as int]@);
        let surface: String = match split_at_first(candidates[index].as_str(), ';') {
            Some(parts) => parts.0,
            None => candidates[index].clone(),
        };
        let start: Vec<char> = characters(surface.as_str());
        if start.len() > 0 && start[0] != '[' {
            let ghost before = pairs(result@);
            let ghost view = (reading@, surface@);
            result.push((reading.clone(), surface));
            assert(pairs(result@) =~= before.push(view));
        }
    }
    assert(all.take(all.len() as int) =~= all);
    result
}

/// The entries of a line in a format.
pub open spec fn line_entries(format: DictionaryFormat, line: Seq<char>) -> Seq<TextPair> {
    match format {
        DictionaryFormat::Tsv => tsv_entries(line),
        DictionaryFormat::Skk => skk_entries(line),
    }
}

/// A reading with its katakana as hiragana.
pub fn normalize_reading(reading: &str) -> (result: String)
    ensures
        result@ == hiragana_text(reading@),
{
    katakana_to_hiragana(reading)
}

// ---------------------------------------------------------------------------
// Corpus
// ---------------------------------------------------------------------------

/// The reading and surface of a word `surface/reading`; `None` if one is missing or the surface
/// is its own reading.
pub open spec fn corpus_token(word: Seq<char>) -> Option<TextPair> {
    match split_last(word, '/') {
        None => None,
        Some(parts) => if parts.0.len() == 0 || parts.1.len() == 0 || parts.0 == hiragana_text(
            parts.1,
        ) {
            None
        } else {
            Some((hiragana_text(parts.1), parts.0))
        },
    }
}

/// The readings and surfaces of some words.
pub open spec fn corpus_tokens(items: Seq<Seq<char>>) -> Seq<TextPair>
    decreases items.len(),
{
    if items.len() == 0 {
        Seq::empty()
    } else {
        let before = corpus_tokens(items.drop_last());
        match corpus_token(items.last()) {
            Some(token) => before.push(token),
            None => before,
        }
    }
}

/// The readings and surfaces of some texts.
pub open spec fn all_tokens(sources: Seq<Seq<char>>) -> Seq<TextPair>
    decreases sources.len(),
{
    if sources.len() == 0 {
        Seq::empty()
    } else {
        all_tokens(sources.drop_last()) + corpus_tokens(words(sources.last()))
    }
}

/// An annotated corpus: readings with surfaces, in the order of the text.
#[derive(Debug)]
pub struct Corpus {
    pub files: usize,
    pub tokens: Vec<(String, String)>,
    pub table: PairTable,
}

/// What a corpus holds.
#[derive(Clone, Copy, Debug, PartialEq, Eq, Structural)]
pub struct CorpusSummary {
    pub files: usize,
    pub token_occurrences: usize,
    pub unique_readings: usize,
    pub unique_pairs: usize,
}

/// The readings of some pairs.
pub open spec fn readings_of(tokens: Seq<TextPair>) -> Set<Seq<char>> {
    Set::new(|reading: Seq<char>| exists|i: int| 0 <= i < tokens.len() && tokens[i].0 == reading)
}

fn read_token(word: &str) -> (result: Option<(String, String)>)
    ensures
        result is Some <==> corpus_token(word@) is Some,
        result matches Some(token) ==> corpus_token(word@) == Some((token.0@, token.1@)),
{
    match split_at_last(word, '/') {
        None => None,
        Some(parts) => {
            let (surface, reading) = parts;
            if surface.as_str().is_empty() || reading.as_str().is_empty() {
                return None;
            }
            let normalized: String = normalize_reading(reading.as_str());
            if same_text(surface.as_str(), normalized.as_str()) {
                return None;
            }
            Some((normalized, surface))
        },
    }
}

fn read_tokens(tokens: &mut Vec<(String, String)>, source: &str)
    ensures
        pairs(final(tokens)@) == pairs(old(tokens)@) + corpus_tokens(words(source@)),
{
    let items: Vec<String> = words_of(source);
    let ghost all = words(source@);
    let ghost start = pairs(tokens@);
    assert(texts(items@) == all);
    assert(all.len() == items@.len());
    assert(all.take(0) =~= Seq::<Seq<char>>::empty());
    assert(pairs(tokens@) =~= start + corpus_tokens(all.take(0)));
    for index in 0..items.len()
        invariant
            all == texts(items@),
            all.len() == items@.len(),
            pairs(tokens@) == start + corpus_tokens(all.take(index as int)),
    {
        assert(all.take(index + 1).drop_last() =~= all.take(index as int));
        assert(all[index as int] == items@[index as int]@);
        if let Some(token) = read_token(items[index].as_str()) {
            let ghost before = pairs(tokens@);
            let ghost view = (token.0@, token.1@);
            tokens.push(token);
            assert(pairs(tokens@) =~= before.push(view));
            assert(pairs(tokens@) =~= start + corpus_tokens(all.take(index + 1)));
        }
    }
    assert(all.take(all.len() as int) =~= all);
}

impl Corpus {
    pub open spec fn well_formed(&self) -> bool {
        &&& self.table.well_formed()
        &&& self.table@ == pairs(self.tokens@).to_set()
    }

    /// The corpus of some texts, which must hold a token that is not its own reading.
    pub fn load(sources: &[String]) -> (result: Result<Self, String>)
        ensures
            result is Ok <==> all_tokens(texts(sources@)).len() > 0,
            result matches Ok(corpus) ==> {
                &&& corpus.well_formed()
                &&& corpus.files == sources@.len()
                &&& pairs(corpus.tokens@) == all_tokens(texts(sources@))
            },
            result matches Err(problem) ==> problem@
                == "corpus contains no non-literal surface/reading tokens"@,
    {
        let ghost all = texts(sources@);
        let mut tokens: Vec<(String, String)> = Vec::new();
        assert(all.take(0) =~= Seq::<Seq<char>>::empty());
        assert(pairs(tokens@) =~= Seq::<TextPair>::empty());
        for index in 0..sources.len()
            invariant
                all == texts(sources@),
                pairs(tokens@) == all_tokens(all.take(index as int)),
        {
            assert(all.take(index + 1).drop_last() =~= all.take(index as int));
            read_tokens(&mut tokens, sources[index].as_str());
        }
        assert(all.take(all.len() as int) =~= all);
        assert(pairs(tokens@).len() == tokens@.len());
        if tokens.len() == 0 {
            return Err("corpus contains no non-literal surface/reading tokens".to_owned());
        }
        let table: PairTable = PairTable::from_pairs(copied_pairs(&tokens));
        Ok(Corpus { files: sources.len(), tokens, table })
    }

    pub fn summary(&self) -> (result: CorpusSummary)
        requires
            self.well_formed(),
        ensures
            result.files == self.files,
            result.token_occurrences == self.tokens@.len(),
            result.unique_readings == readings_of(pairs(self.tokens@)).len(),
            result.unique_pairs == pairs(self.tokens@).to_set().len(),
    {
        let readings: Vec<String> = self.table.firsts();
        proof {
            let found = texts(readings@);
            let tokens = pairs(self.tokens@);
            found.unique_seq_to_set();
            assert forall|reading: Seq<char>|
                found.to_set().contains(reading) == readings_of(tokens).contains(reading) by {
                if found.contains(reading) {
                    let surface = choose|surface: Seq<char>|
                        self.table@.contains((reading, surface));
                    let i = choose|i: int| 0 <= i < tokens.len() && tokens[i] == (reading, surface);
                    assert(tokens[i].0 == reading);
                }
                if readings_of(tokens).contains(reading) {
                    let i = choose|i: int| 0 <= i < tokens.len() && tokens[i].0 == reading;
                    assert(tokens.contains(tokens[i]));
                    assert(self.table@.contains((reading, tokens[i].1)));
                }
            }
            assert(found.to_set() =~= readings_of(tokens));
        }
        CorpusSummary {
            files: self.files,
            token_occurrences: self.tokens.len(),
            unique_readings: readings.len(),
            unique_pairs: self.table.len(),
        }
    }
}

// ---------------------------------------------------------------------------
// Reports
// ---------------------------------------------------------------------------

/// A dictionary with a label, its size in bytes and its text.
#[derive(Debug)]
pub struct DictionarySource {
    pub label: String,
    pub format: DictionaryFormat,
    pub bytes: u64,
    pub text: String,
}

/// How much of a corpus the sources with one label cover. No count goes beyond the greatest
/// number.
#[derive(Debug)]
pub struct DictionaryReport {
    pub label: String,
    pub source_files: usize,
    pub source_bytes: u64,
    pub entries: usize,
    pub covered_readings: TextSet,
    pub covered_pairs: TextSet,
}

/// A report as a mathematical value.
pub ghost struct DictionaryReportView {
    pub label: Seq<char>,
    pub source_files: usize,
    pub source_bytes: u64,
    pub entries: usize,
    pub covered_readings: Set<Seq<char>>,
    pub covered_pairs: Set<Seq<char>>,
}

impl View for DictionaryReport {
    type V = DictionaryReportView;

    open spec fn view(&self) -> DictionaryReportView {
        DictionaryReportView {
            label: self.label@,
            source_files: self.source_files,
            source_bytes: self.source_bytes,
            entries: self.entries,
            covered_readings: self.covered_readings@,
            covered_pairs: self.covered_pairs@,
        }
    }
}

/// A report on no source.
pub open spec fn empty_report(label: Seq<char>) -> DictionaryReportView {
    DictionaryReportView {
        label,
        source_files: 0,
        source_bytes: 0,
        entries: 0,
        covered_readings: Set::empty(),
        covered_pairs: Set::empty(),
    }
}

/// The report after one more entry: it covers its reading if the corpus has it, and its pair if
/// the corpus has that too.
pub open spec fn with_entry(
    report: DictionaryReportView,
    entry: TextPair,
    tokens: Seq<TextPair>,
) -> DictionaryReportView {
    let reading = hiragana_text(entry.0);
    DictionaryReportView {
        entries: more(report.entries, 1),
        covered_readings: if readings_of(tokens).contains(reading) {
            report.covered_readings.insert(reading)
        } else {
            report.covered_readings
        },
        covered_pairs: if tokens.contains((reading, entry.1)) {
            report.covered_pairs.insert(pair_key_of(reading, entry.1))
        } else {
            report.covered_pairs
        },
        ..report
    }
}

/// The report after some more entries.
pub open spec fn with_entries(
    report: DictionaryReportView,
    entries: Seq<TextPair>,
    tokens: Seq<TextPair>,
) -> DictionaryReportView
    decreases entries.len(),
{
    if entries.len() == 0 {
        report
    } else {
        with_entry(with_entries(report, entries.drop_last(), tokens), entries.last(), tokens)
    }
}

/// The report after some more lines of a source.
pub open spec fn with_lines(
    report: DictionaryReportView,
    format: DictionaryFormat,
    rows: Seq<Seq<char>>,
    tokens: Seq<TextPair>,
) -> DictionaryReportView
    decreases rows.len(),
{
    if rows.len() == 0 {
        report
    } else {
        with_entries(
            with_lines(report, format, rows.drop_last(), tokens),
            line_entries(format, rows.last()),
            tokens,
        )
    }
}

/// The sum of two numbers, or the greatest number.
pub open spec fn bounded_sum(left: u64, right: u64) -> u64 {
    if left + right > u64::MAX {
        u64::MAX
    } else {
        (left + right) as u64
    }
}

/// The report after one more source.
pub open spec fn with_source(
    report: DictionaryReportView,
    source: DictionarySource,
    tokens: Seq<TextPair>,
) -> DictionaryReportView {
    with_lines(
        DictionaryReportView {
            source_files: more(report.source_files, 1),
            source_bytes: bounded_sum(report.source_bytes, source.bytes),
            ..report
        },
        source.format,
        lines(source.text@),
        tokens,
    )
}

/// An entry that was read before covers nothing more.
pub proof fn entries_cover_once(
    report: DictionaryReportView,
    entry: TextPair,
    tokens: Seq<TextPair>,
)
    ensures
        ({
            let once = with_entry(report, entry, tokens);
            let twice = with_entry(once, entry, tokens);
            &&& twice.covered_readings == once.covered_readings
            &&& twice.covered_pairs == once.covered_pairs
        }),
{
    let once = with_entry(report, entry, tokens);
    let twice = with_entry(once, entry, tokens);
    assert(twice.covered_readings =~= once.covered_readings);
    assert(twice.covered_pairs =~= once.covered_pairs);
}

/// Several files count as one: their lines, one file behind the other, cover the same.
pub proof fn files_combine(
    report: DictionaryReportView,
    format: DictionaryFormat,
    first: Seq<Seq<char>>,
    second: Seq<Seq<char>>,
    tokens: Seq<TextPair>,
)
    ensures
        with_lines(report, format, first + second, tokens) == with_lines(
            with_lines(report, format, first, tokens),
            format,
            second,
            tokens,
        ),
    decreases second.len(),
{
    let all = first + second;
    if second.len() == 0 {
        assert(all =~= first);
    } else {
        files_combine(report, format, first, second.drop_last(), tokens);
        assert(all.drop_last() =~= first + second.drop_last());
        assert(all.last() == second.last());
    }
}

impl DictionaryReport {
    pub open spec fn well_formed(&self) -> bool {
        self.covered_readings.well_formed() && self.covered_pairs.well_formed()
    }

    pub fn new(label: &str) -> (result: Self)
        ensures
            result.well_formed(),
            result@ == empty_report(label@),
    {
        DictionaryReport {
            label: label.to_owned(),
            source_files: 0,
            source_bytes: 0,
            entries: 0,
            covered_readings: TextSet::new(),
            covered_pairs: TextSet::new(),
        }
    }

    fn add_entry(&mut self, reading: &str, surface: &str, corpus: &Corpus)
        requires
            old(self).well_formed(),
            corpus.well_formed(),
        ensures
            final(self).well_formed(),
            final(self)@ == with_entry(old(self)@, (reading@, surface@), pairs(corpus.tokens@)),
    {
        self.entries = self.entries.saturating_add(1);
        let normalized: String = normalize_reading(reading);
        let surfaces: Vec<String> = corpus.table.partners(normalized.as_str());
        let ghost tokens = pairs(corpus.tokens@);
        let ghost found = texts(surfaces@);
        if surfaces.len() == 0 {
            proof {
                assert forall|i: int| 0 <= i < tokens.len() implies tokens[i].0 != normalized@ by {
                    if tokens[i].0 == normalized@ {
                        assert(tokens.contains(tokens[i]));
                        assert(corpus.table@.contains((normalized@, tokens[i].1)));
                        assert(found.contains(tokens[i].1));
                    }
                }
                if tokens.contains((normalized@, surface@)) {
                    assert(corpus.table@.contains((normalized@, surface@)));
                    assert(found.contains(surface@));
                }
            }
            return;
        }
        proof {
            assert(found.contains(found[0]));
            assert(corpus.table@.contains((normalized@, found[0])));
            let i = choose|i: int| 0 <= i < tokens.len() && tokens[i] == (normalized@, found[0]);
            assert(tokens[i].0 == normalized@);
            assert(readings_of(tokens).contains(normalized@));
        }
        if crate::text::holds_text(surfaces.as_slice(), surface) {
            assert(corpus.table@.contains((normalized@, surface@)));
            let key: String = pair_key(normalized.as_str(), surface);
            let _ = self.covered_pairs.insert(key.as_str());
        } else {
            assert(!corpus.table@.contains((normalized@, surface@)));
        }
        let _ = self.covered_readings.insert(normalized.as_str());
    }

    fn add_entries(&mut self, entries: &Vec<(String, String)>, corpus: &Corpus)
        requires
            old(self).well_formed(),
            corpus.well_formed(),
        ensures
            final(self).well_formed(),
            final(self)@ == with_entries(old(self)@, pairs(entries@), pairs(corpus.tokens@)),
    {
        let ghost all = pairs(entries@);
        let ghost start = self@;
        assert(all.take(0) =~= Seq::<TextPair>::empty());
        for index in 0..entries.len()
            invariant
                self.well_formed(),
                corpus.well_formed(),
                all == pairs(entries@),
                self@ == with_entries(start, all.take(index as int), pairs(corpus.tokens@)),
        {
            assert(all.take(index + 1).drop_last() =~= all.take(index as int));
            self.add_entry(entries[index].0.as_str(), entries[index].1.as_str(), corpus);
        }
        assert(all.take(all.len() as int) =~= all);
    }

    /// Takes a source into account.
    pub fn add_source(&mut self, source: &DictionarySource, corpus: &Corpus)
        requires
            old(self).well_formed(),
            corpus.well_formed(),
        ensures
            final(self).well_formed(),
            final(self)@ == with_source(old(self)@, *source, pairs(corpus.tokens@)),
    {
        self.source_files = self.source_files.saturating_add(1);
        self.source_bytes = self.source_bytes.saturating_add(source.bytes);
        let rows: Vec<String> = lines_of(source.text.as_str());
        let ghost all = lines(source.text@);
        let ghost start = self@;
        assert(all == texts(rows@));
        assert(all.len() == rows@.len());
        assert(all.take(0) =~= Seq::<Seq<char>>::empty());
        for index in 0..rows.len()
            invariant
                self.well_formed(),
                corpus.well_formed(),
                all == texts(rows@),
                all.len() == rows@.len(),
                self@ == with_lines(
                    start,
                    source.format,
                    all.take(index as int),
                    pairs(corpus.tokens@),
                ),
        {
            assert(all.take(index + 1).drop_last() =~= all.take(index as int));
            assert(all[index as int] == rows@[index as int]@);
            let entries: Vec<(String, String)> = match source.format {
                DictionaryFormat::Tsv => visit_tsv_entries(rows[index].as_str()),
                DictionaryFormat::Skk => visit_skk_entries(rows[index].as_str()),
            };
            self.add_entries(&entries, corpus);
        }
        assert(all.take(all.len() as int) =~= all);
    }

    /// What the sources cover.
    pub fn finish(self, corpus: &Corpus) -> (result: CoverageSummary)
        requires
            self.well_formed(),
            corpus.well_formed(),
        ensures
            result@ == summary_of(self@, pairs(corpus.tokens@)),
    {
        let ghost tokens = pairs(corpus.tokens@);
        let mut exact: usize = 0;
        let mut read: usize = 0;
        assert(tokens.take(0) =~= Seq::<TextPair>::empty());
        for index in 0..corpus.tokens.len()
            invariant
                self.well_formed(),
                tokens == pairs(corpus.tokens@),
                exact <= index,
                read <= index,
                exact == covered_tokens(self.covered_pairs@, tokens.take(index as int)),
                read == read_tokens_in(self.covered_readings@, tokens.take(index as int)),
        {
            assert(tokens.take(index + 1).drop_last() =~= tokens.take(index as int));
            let token: &(String, String) = &corpus.tokens[index];
            let key: String = pair_key(token.0.as_str(), token.1.as_str());
            if self.covered_pairs.contains(key.as_str()) {
                exact += 1;
            }
            if self.covered_readings.contains(token.0.as_str()) {
                read += 1;
            }
        }
        assert(tokens.take(tokens.len() as int) =~= tokens);
        let summary: CorpusSummary = corpus.summary();
        CoverageSummary {
            label: self.label,
            source_files: self.source_files,
            source_bytes: self.source_bytes,
            entries: self.entries,
            exact_pair: CoverageCounts {
                covered_occurrences: exact,
                covered_unique: self.covered_pairs.len(),
                total_occurrences: corpus.tokens.len(),
                total_unique: summary.unique_pairs,
            },
            reading: CoverageCounts {
                covered_occurrences: read,
                covered_unique: self.covered_readings.len(),
                total_occurrences: corpus.tokens.len(),
                total_unique: summary.unique_readings,
            },
        }
    }
}

/// The number of tokens whose pair is covered.
pub open spec fn covered_tokens(covered: Set<Seq<char>>, tokens: Seq<TextPair>) -> nat
    decreases tokens.len(),
{
    if tokens.len() == 0 {
        0
    } else {
        covered_tokens(covered, tokens.drop_last()) + (if covered.contains(
            pair_key_of(tokens.last().0, tokens.last().1),
        ) {
            1nat
        } else {
            0
        })
    }
}

/// The number of tokens whose reading is covered.
pub open spec fn read_tokens_in(covered: Set<Seq<char>>, tokens: Seq<TextPair>) -> nat
    decreases tokens.len(),
{
    if tokens.len() == 0 {
        0
    } else {
        read_tokens_in(covered, tokens.drop_last()) + (if covered.contains(tokens.last().0) {
            1nat
        } else {
            0
        })
    }
}

/// No more tokens are covered than there are.
pub proof fn coverage_is_bounded(covered: Set<Seq<char>>, tokens: Seq<TextPair>)
    ensures
        covered_tokens(covered, tokens) <= tokens.len(),
        read_tokens_in(covered, tokens) <= tokens.len(),
    decreases tokens.len(),
{
    if tokens.len() > 0 {
        coverage_is_bounded(covered, tokens.drop_last());
    }
}

/// How many tokens and how many different ones are covered, of how many.
#[derive(Clone, Copy, Debug, PartialEq, Eq, Structural)]
pub struct CoverageCounts {
    pub covered_occurrences: usize,
    pub covered_unique: usize,
    pub total_occurrences: usize,
    pub total_unique: usize,
}

/// What the sources with a label cover.
#[derive(Debug, PartialEq, Eq)]
pub struct CoverageSummary {
    pub label: String,
    pub source_files: usize,
    pub source_bytes: u64,
    pub entries: usize,
    pub exact_pair: CoverageCounts,
    pub reading: CoverageCounts,
}

/// What is covered, as a mathematical value.
pub ghost struct CoverageSummaryView {
    pub label: Seq<char>,
    pub source_files: usize,
    pub source_bytes: u64,
    pub entries: usize,
    pub exact_pair: (nat, nat, nat, nat),
    pub reading: (nat, nat, nat, nat),
}

impl View for CoverageSummary {
    type V = CoverageSummaryView;

    open spec fn view(&self) -> CoverageSummaryView {
        CoverageSummaryView {
            label: self.label@,
            source_files: self.source_files,
            source_bytes: self.source_bytes,
            entries: self.entries,
            exact_pair: (
                self.exact_pair.covered_occurrences as nat,
                self.exact_pair.covered_unique as nat,
                self.exact_pair.total_occurrences as nat,
                self.exact_pair.total_unique as nat,
            ),
            reading: (
                self.reading.covered_occurrences as nat,
                self.reading.covered_unique as nat,
                self.reading.total_occurrences as nat,
                self.reading.total_unique as nat,
            ),
        }
    }
}

/// What a report says of the tokens of a corpus: covered tokens, covered values, tokens, values.
pub open spec fn summary_of(report: DictionaryReportView, tokens: Seq<TextPair>) -> CoverageSummaryView {
    CoverageSummaryView {
        label: report.label,
        source_files: report.source_files,
        source_bytes: report.source_bytes,
        entries: report.entries,
        exact_pair: (
            covered_tokens(report.covered_pairs, tokens),
            report.covered_pairs.len(),
            tokens.len(),
            tokens.to_set().len(),
        ),
        reading: (
            read_tokens_in(report.covered_readings, tokens),
            report.covered_readings.len(),
            tokens.len(),
            readings_of(tokens).len(),
        ),
    }
}

/// The report on the first `count` sources that have the label.
pub open spec fn labelled_report(
    label: Seq<char>,
    sources: Seq<DictionarySource>,
    tokens: Seq<TextPair>,
    count: int,
) -> DictionaryReportView
    decreases count,
{
    if count <= 0 {
        empty_report(label)
    } else {
        let before = labelled_report(label, sources, tokens, count - 1);
        if sources[count - 1].label@ == label {
            with_source(before, sources[count - 1], tokens)
        } else {
            before
        }
    }
}

/// The labels of some sources.
pub open spec fn labels_of(sources: Seq<DictionarySource>) -> Seq<Seq<char>> {
    Seq::new(sources.len(), |i: int| sources[i].label@)
}

/// The labels of some summaries.
pub open spec fn summary_labels(summaries: Seq<CoverageSummary>) -> Seq<Seq<char>> {
    Seq::new(summaries.len(), |i: int| summaries[i].label@)
}

fn report_on(label: &str, sources: &[DictionarySource], corpus: &Corpus) -> (result:
    CoverageSummary)
    requires
        corpus.well_formed(),
    ensures
        result@ == summary_of(
            labelled_report(label@, sources@, pairs(corpus.tokens@), sources@.len() as int),
            pairs(corpus.tokens@),
        ),
{
    let mut report: DictionaryReport = DictionaryReport::new(label);
    for index in 0..sources.len()
        invariant
            report.well_formed(),
            corpus.well_formed(),
            report@ == labelled_report(label@, sources@, pairs(corpus.tokens@), index as int),
    {
        if same_text(sources[index].label.as_str(), label) {
            report.add_source(&sources[index], corpus);
        }
    }
    report.finish(corpus)
}

proof fn reports_keep_their_label(
    label: Seq<char>,
    sources: Seq<DictionarySource>,
    tokens: Seq<TextPair>,
    count: int,
)
    ensures
        labelled_report(label, sources, tokens, count).label == label,
    decreases count,
{
    if count > 0 {
        reports_keep_their_label(label, sources, tokens, count - 1);
        let before = labelled_report(label, sources, tokens, count - 1);
        let source = sources[count - 1];
        lines_keep_the_label(
            DictionaryReportView {
                source_files: more(before.source_files, 1),
                source_bytes: bounded_sum(before.source_bytes, source.bytes),
                ..before
            },
            source.format,
            lines(source.text@),
            tokens,
        );
    }
}

proof fn lines_keep_the_label(
    report: DictionaryReportView,
    format: DictionaryFormat,
    rows: Seq<Seq<char>>,
    tokens: Seq<TextPair>,
)
    ensures
        with_lines(report, format, rows, tokens).label == report.label,
    decreases rows.len(),
{
    if rows.len() > 0 {
        lines_keep_the_label(report, format, rows.drop_last(), tokens);
        entries_keep_the_label(
            with_lines(report, format, rows.drop_last(), tokens),
            line_entries(format, rows.last()),
            tokens,
        );
    }
}

proof fn entries_keep_the_label(
    report: DictionaryReportView,
    entries: Seq<TextPair>,
    tokens: Seq<TextPair>,
)
    ensures
        with_entries(report, entries, tokens).label == report.label,
    decreases entries.len(),
{
    if entries.len() > 0 {
        entries_keep_the_label(report, entries.drop_last(), tokens);
    }
}

/// What the sources cover, one summary for each label in the order of the labels.
pub fn coverage_reports(sources: &[DictionarySource], corpus: &Corpus) -> (result: Vec<
    CoverageSummary,
>)
    requires
        corpus.well_formed(),
    ensures
        is_increasing(summary_labels(result@)),
        summary_labels(result@).to_set() == labels_of(sources@).to_set(),
        forall|i: int|
            0 <= i < result@.len() ==> (#[trigger] result@[i])@ == summary_of(
                labelled_report(
                    result@[i].label@,
                    sources@,
                    pairs(corpus.tokens@),
                    sources@.len() as int,
                ),
                pairs(corpus.tokens@),
            ),
{
    let ghost tokens = pairs(corpus.tokens@);
    let ghost names = labels_of(sources@);
    let mut seen: TextSet = TextSet::new();
    assert(names.take(0).to_set() =~= Set::<Seq<char>>::empty());
    for index in 0..sources.len()
        invariant
            seen.well_formed(),
            names == labels_of(sources@),
            seen@ == names.take(index as int).to_set(),
    {
        let _ = seen.insert(sources[index].label.as_str());
        proof {
            let before = names.take(index as int);
            let after = names.take(index + 1);
            assert(after =~= before.push(names[index as int]));
            assert forall|name: Seq<char>|
                after.to_set().contains(name) == before.to_set().insert(
                    names[index as int],
                ).contains(name) by {
                if before.contains(name) {
                    let i = choose|i: int| 0 <= i < before.len() && before[i] == name;
                    assert(after[i] == name);
                }
                if name == names[index as int] {
                    assert(after[index as int] == name);
                }
            }
            assert(after.to_set() =~= before.to_set().insert(names[index as int]));
        }
    }
    assert(names.take(names.len() as int) =~= names);
    let labels: Vec<String> = seen.listed();
    let mut result: Vec<CoverageSummary> = Vec::new();
    for index in 0..labels.len()
        invariant
            corpus.well_formed(),
            tokens == pairs(corpus.tokens@),
            result@.len() == index,
            forall|i: int|
                0 <= i < index ==> (#[trigger] result@[i])@ == summary_of(
                    labelled_report(
                        texts(labels@)[i],
                        sources@,
                        tokens,
                        sources@.len() as int,
                    ),
                    tokens,
                ),
    {
        let summary: CoverageSummary = report_on(labels[index].as_str(), sources, corpus);
        result.push(summary);
    }
    proof {
        assert forall|i: int| 0 <= i < result@.len() implies #[trigger] summary_labels(result@)[i]
            == texts(labels@)[i] by {
            reports_keep_their_label(texts(labels@)[i], sources@, tokens, sources@.len() as int);
            assert(result@[i]@.label == texts(labels@)[i]);
        }
        assert(summary_labels(result@) =~= texts(labels@));
        assert forall|i: int| 0 <= i < result@.len() implies (#[trigger] result@[i]).label@
            == texts(labels@)[i] by {
            assert(summary_labels(result@)[i] == texts(labels@)[i]);
        }
    }
    result
}

// ---------------------------------------------------------------------------
// What is covered
// ---------------------------------------------------------------------------

/// A row of columns has one entry, the first column read as the second one, if neither is empty.
pub proof fn a_row_of_columns_has_one_entry(columns: Seq<Seq<char>>)
    requires
        columns.len() >= 1,
        forall|i: int| 0 <= i < columns.len() ==> !(#[trigger] columns[i]).contains('\t'),
    ensures
        ({
            let found = tsv_entries(crate::text::join_with(columns, '\t'));
            let whole = columns.len() >= 2 && columns[0].len() > 0 && columns[1].len() > 0;
            &&& whole ==> found == seq![(columns[0], columns[1])]
            &&& !whole ==> found.len() == 0
        }),
{
    crate::text::joined_columns_split_again(columns, '\t');
}

/// What is covered after some entries is what was, and the readings and pairs of the entries that the
/// corpus has.
pub proof fn entries_cover_what_the_corpus_has(
    report: DictionaryReportView,
    entries: Seq<TextPair>,
    tokens: Seq<TextPair>,
    reading: Seq<char>,
    key: Seq<char>,
)
    ensures
        ({
            let after = with_entries(report, entries, tokens);
            &&& after.covered_readings.contains(reading) <==> report.covered_readings.contains(
                reading,
            ) || exists|i: int, k: int|
                0 <= i < entries.len() && 0 <= k < tokens.len() && hiragana_text(
                    (#[trigger] entries[i]).0,
                ) == reading && (#[trigger] tokens[k]).0 == reading
            &&& after.covered_pairs.contains(key) <==> report.covered_pairs.contains(key)
                || exists|i: int, k: int|
                0 <= i < entries.len() && 0 <= k < tokens.len() && (#[trigger] tokens[k]) == (
                    hiragana_text((#[trigger] entries[i]).0),
                    entries[i].1,
                ) && key == tokens[k].0 + seq!['\0'] + tokens[k].1
            &&& after.label == report.label
            &&& after.source_files == report.source_files
        }),
    decreases entries.len(),
{
    if entries.len() > 0 {
        let rest = entries.drop_last();
        let last = entries.last();
        entries_cover_what_the_corpus_has(report, rest, tokens, reading, key);
        let before = with_entries(report, rest, tokens);
        let after = with_entries(report, entries, tokens);
        let at = entries.len() - 1;
        let said = hiragana_text(last.0);
        assert(entries[at] == last);
        assert forall|i: int| 0 <= i < rest.len() implies rest[i] == entries[i] by {}
        if after.covered_readings.contains(reading) && !before.covered_readings.contains(reading) {
            let k = choose|k: int| 0 <= k < tokens.len() && tokens[k].0 == reading;
            assert(hiragana_text(entries[at].0) == reading && tokens[k].0 == reading);
        }
        if before.covered_readings.contains(reading) && !report.covered_readings.contains(reading) {
            let (i, k) = choose|i: int, k: int|
                0 <= i < rest.len() && 0 <= k < tokens.len() && hiragana_text(
                    (#[trigger] rest[i]).0,
                ) == reading && (#[trigger] tokens[k]).0 == reading;
            assert(hiragana_text(entries[i].0) == reading && tokens[k].0 == reading);
        }
        if exists|i: int, k: int|
            0 <= i < entries.len() && 0 <= k < tokens.len() && hiragana_text(
                (#[trigger] entries[i]).0,
            ) == reading && (#[trigger] tokens[k]).0 == reading {
            let (i, k) = choose|i: int, k: int|
                0 <= i < entries.len() && 0 <= k < tokens.len() && hiragana_text(
                    (#[trigger] entries[i]).0,
                ) == reading && (#[trigger] tokens[k]).0 == reading;
            if i < at {
                assert(hiragana_text(rest[i].0) == reading && tokens[k].0 == reading);
                assert(before.covered_readings.contains(reading));
            } else {
                assert(readings_of(tokens).contains(reading));
            }
        }
        if after.covered_pairs.contains(key) && !before.covered_pairs.contains(key) {
            let k = choose|k: int| 0 <= k < tokens.len() && tokens[k] == (said, last.1);
            assert(tokens[k] == (hiragana_text(entries[at].0), entries[at].1));
        }
        if before.covered_pairs.contains(key) && !report.covered_pairs.contains(key) {
            let (i, k) = choose|i: int, k: int|
                0 <= i < rest.len() && 0 <= k < tokens.len() && (#[trigger] tokens[k]) == (
                    hiragana_text((#[trigger] rest[i]).0),
                    rest[i].1,
                ) && key == tokens[k].0 + seq!['\0'] + tokens[k].1;
            assert(tokens[k] == (hiragana_text(entries[i].0), entries[i].1));
        }
        if exists|i: int, k: int|
            0 <= i < entries.len() && 0 <= k < tokens.len() && (#[trigger] tokens[k]) == (
                hiragana_text((#[trigger] entries[i]).0),
                entries[i].1,
            ) && key == tokens[k].0 + seq!['\0'] + tokens[k].1 {
            let (i, k) = choose|i: int, k: int|
                0 <= i < entries.len() && 0 <= k < tokens.len() && (#[trigger] tokens[k]) == (
                    hiragana_text((#[trigger] entries[i]).0),
                    entries[i].1,
                ) && key == tokens[k].0 + seq!['\0'] + tokens[k].1;
            if i < at {
                assert(tokens[k] == (hiragana_text(rest[i].0), rest[i].1));
                assert(before.covered_pairs.contains(key));
            } else {
                assert(tokens.contains((said, last.1)));
            }
        }
    }
}

/// Each token counts once, if what it names is covered.
pub proof fn each_token_counts_once(
    covered: Set<Seq<char>>,
    tokens: Seq<TextPair>,
    token: TextPair,
)
    ensures
        covered_tokens(covered, tokens.push(token)) == covered_tokens(covered, tokens) + (
        if covered.contains(token.0 + seq!['\0'] + token.1) {
            1nat
        } else {
            0
        }),
        read_tokens_in(covered, tokens.push(token)) == read_tokens_in(covered, tokens) + (
        if covered.contains(token.0) {
            1nat
        } else {
            0
        }),
        covered_tokens(covered, Seq::<TextPair>::empty()) == 0,
        read_tokens_in(covered, Seq::<TextPair>::empty()) == 0,
{
    assert(tokens.push(token).drop_last() =~= tokens);
}

/// A candidate stands before its annotation; without a semicolon all of it is the surface. Empty and
/// bracketed surfaces are left out.
pub proof fn candidates_stand_before_their_annotation(
    reading: Seq<char>,
    candidates: Seq<Seq<char>>,
    surface: Seq<char>,
    annotation: Seq<char>,
)
    requires
        !surface.contains(';'),
    ensures
        ({
            let plain = candidate_entries(reading, candidates.push(surface));
            let noted = candidate_entries(
                reading,
                candidates.push(surface + seq![';'] + annotation),
            );
            let before = candidate_entries(reading, candidates);
            &&& surface.len() > 0 && surface[0] != '[' ==> plain == before.push((reading, surface))
                && noted == before.push((reading, surface))
            &&& surface.len() == 0 || surface[0] == '[' ==> plain == before && noted == before
        }),
{
    let whole = surface + seq![';'] + annotation;
    assert(candidates.push(surface).drop_last() =~= candidates);
    assert(candidates.push(whole).drop_last() =~= candidates);
    crate::text::splits_part_the_text(surface, ';');
    crate::text::splits_part_the_text(whole, ';');
    let at = surface.len() as int;
    assert(whole[at] == ';');
    assert(whole.contains(';'));
    let parts = split_first(whole, ';')->0;
    let joined = parts.0 + seq![';'] + parts.1;
    if parts.0.len() < at {
        assert(joined[parts.0.len() as int] == ';');
        assert(whole[parts.0.len() as int] == surface[parts.0.len() as int]);
        assert(surface.contains(surface[parts.0.len() as int]));
    } else if parts.0.len() > at {
        assert(joined[at] == parts.0[at]);
        assert(parts.0.contains(parts.0[at]));
    }
    assert(parts.0 =~= surface) by {
        assert forall|i: int| 0 <= i < at implies parts.0[i] == surface[i] by {
            assert(joined[i] == parts.0[i]);
            assert(whole[i] == surface[i]);
        }
    }
}

} // verus!
