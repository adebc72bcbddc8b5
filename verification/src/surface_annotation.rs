//! Readings of written text, estimated by looking its surfaces up in a dictionary.

use crate::corpus::{pairs, TextPair};
use crate::evaluation::{join_tokens, joined_readings, joined_surfaces};
use crate::kana::{hiragana, ideograph, is_ideograph, to_hiragana};
use crate::pair_table::PairTable;
use crate::text::{characters, columns_of, lines, lines_of, split_on, text_between, texts};
use vstd::prelude::*;
use vstd::string::*;

verus! {

/// Whether a surface stands in the dictionary, which is a set of surfaces with readings.
pub open spec fn is_known(dictionary: Set<TextPair>, surface: Seq<char>) -> bool {
    exists|reading: Seq<char>| dictionary.contains((surface, reading))
}

/// Whether `reading` is the one reading that a surface has in the dictionary.
pub open spec fn is_only_reading(
    dictionary: Set<TextPair>,
    surface: Seq<char>,
    reading: Seq<char>,
) -> bool {
    &&& dictionary.contains((surface, reading))
    &&& forall|other: Seq<char>| #[trigger]
        dictionary.contains((surface, other)) ==> other == reading
}

/// The reading of a surface; `None` if it has none or more than one.
pub open spec fn only_reading(dictionary: Set<TextPair>, surface: Seq<char>) -> Option<Seq<char>> {
    if exists|reading: Seq<char>| is_only_reading(dictionary, surface, reading) {
        Some(choose|reading: Seq<char>| is_only_reading(dictionary, surface, reading))
    } else {
        None
    }
}

/// The length of the longest known surface that starts at `start` and is no longer than `length`;
/// zero if there is none.
pub open spec fn longest_match(
    dictionary: Set<TextPair>,
    text: Seq<char>,
    start: int,
    length: int,
) -> int
    decreases length,
{
    if length <= 0 {
        0
    } else if is_known(dictionary, text.subrange(start, start + length)) {
        length
    } else {
        longest_match(dictionary, text, start, length - 1)
    }
}

/// The surface and reading that a text is annotated with at `start`: the longest surface of the
/// dictionary, which must have one reading, or else one character that is not a kanji and is read
/// as it is written.
pub open spec fn annotation_at(dictionary: Set<TextPair>, text: Seq<char>, start: int) -> Option<
    TextPair,
> {
    let length = longest_match(dictionary, text, start, text.len() - start);
    if length > 0 {
        let surface = text.subrange(start, start + length);
        match only_reading(dictionary, surface) {
            Some(reading) => Some((surface, reading)),
            None => None,
        }
    } else if is_ideograph(text[start]) {
        None
    } else {
        Some((seq![text[start]], seq![to_hiragana(text[start])]))
    }
}

/// The surfaces with their readings that a text is made of from `start` on; `None` where no
/// reading can be trusted.
pub open spec fn annotations_from(dictionary: Set<TextPair>, text: Seq<char>, start: int) -> Option<
    Seq<TextPair>,
>
    decreases text.len() - start,
{
    if start >= text.len() {
        Some(Seq::empty())
    } else {
        match annotation_at(dictionary, text, start) {
            None => None,
            Some(token) => if token.0.len() == 0 || start + token.0.len() > text.len() {
                None
            } else {
                match annotations_from(dictionary, text, start + token.0.len()) {
                    None => None,
                    Some(rest) => Some(seq![token] + rest),
                }
            },
        }
    }
}

/// The surfaces with their readings that a text is made of.
pub open spec fn annotations(dictionary: Set<TextPair>, text: Seq<char>) -> Option<Seq<TextPair>> {
    annotations_from(dictionary, text, 0)
}

/// The reading of a text; `None` where no reading can be trusted.
pub open spec fn derived_reading(dictionary: Set<TextPair>, text: Seq<char>) -> Option<Seq<char>> {
    match annotations(dictionary, text) {
        Some(tokens) => Some(joined_readings(tokens)),
        None => None,
    }
}

proof fn match_is_within(dictionary: Set<TextPair>, text: Seq<char>, start: int, length: int)
    requires
        0 <= length,
    ensures
        0 <= longest_match(dictionary, text, start, length) <= length,
    decreases length,
{
    if length > 0 {
        match_is_within(dictionary, text, start, length - 1);
    }
}

proof fn annotation_is_within(dictionary: Set<TextPair>, text: Seq<char>, start: int)
    requires
        0 <= start < text.len(),
    ensures
        annotation_at(dictionary, text, start) matches Some(token) ==> {
            &&& 0 < token.0.len() <= text.len() - start
            &&& token.0 == text.subrange(start, start + token.0.len())
        },
{
    match_is_within(dictionary, text, start, text.len() - start);
    assert(text.subrange(start, start + 1) =~= seq![text[start]]);
}

proof fn surfaces_from_the_front(token: TextPair, rest: Seq<TextPair>)
    ensures
        joined_surfaces(seq![token] + rest) == token.0 + joined_surfaces(rest),
    decreases rest.len(),
{
    let all = seq![token] + rest;
    if rest.len() == 0 {
        assert(all.drop_last() =~= Seq::<TextPair>::empty());
        assert(all.last() == token);
        assert(joined_surfaces(all.drop_last()) =~= Seq::<char>::empty());
        assert(joined_surfaces(all) =~= token.0 + joined_surfaces(rest));
    } else {
        surfaces_from_the_front(token, rest.drop_last());
        assert(all.drop_last() =~= seq![token] + rest.drop_last());
        assert(all.last() == rest.last());
        assert(joined_surfaces(all) =~= token.0 + joined_surfaces(rest));
    }
}

/// An annotation loses nothing: its surfaces make up the text.
pub proof fn annotations_cover_the_text(dictionary: Set<TextPair>, text: Seq<char>)
    ensures
        annotations(dictionary, text) matches Some(tokens) ==> joined_surfaces(tokens) == text,
{
    annotations_cover_the_rest(dictionary, text, 0);
    assert(text.skip(0) =~= text);
}

proof fn annotations_cover_the_rest(dictionary: Set<TextPair>, text: Seq<char>, start: int)
    requires
        0 <= start <= text.len(),
    ensures
        annotations_from(dictionary, text, start) matches Some(tokens) ==> joined_surfaces(tokens)
            == text.skip(start),
    decreases text.len() - start,
{
    if start < text.len() {
        annotation_is_within(dictionary, text, start);
        if let Some(token) = annotation_at(dictionary, text, start) {
            let next = start + token.0.len();
            annotations_cover_the_rest(dictionary, text, next);
            if let Some(rest) = annotations_from(dictionary, text, next) {
                surfaces_from_the_front(token, rest);
                assert(token.0 + text.skip(next) =~= text.skip(start));
            }
        }
    } else {
        assert(text.skip(start) =~= Seq::<char>::empty());
    }
}

/// Each reading of an annotation can be trusted: it is the only one that the dictionary has for
/// its surface, or the surface is a character that the dictionary does not know and no kanji.
pub proof fn annotations_are_unambiguous(dictionary: Set<TextPair>, text: Seq<char>, index: int)
    requires
        annotations(dictionary, text) is Some,
        0 <= index < annotations(dictionary, text)->0.len(),
    ensures
        ({
            let token = annotations(dictionary, text)->0[index];
            is_only_reading(dictionary, token.0, token.1) || (token.0.len() == 1 && !is_ideograph(
                token.0[0],
            ) && !is_known(dictionary, token.0) && token.1 == seq![to_hiragana(token.0[0])])
        }),
{
    rest_is_unambiguous(dictionary, text, 0, index);
}

proof fn rest_is_unambiguous(dictionary: Set<TextPair>, text: Seq<char>, start: int, index: int)
    requires
        0 <= start <= text.len(),
        annotations_from(dictionary, text, start) is Some,
        0 <= index < annotations_from(dictionary, text, start)->0.len(),
    ensures
        ({
            let token = annotations_from(dictionary, text, start)->0[index];
            is_only_reading(dictionary, token.0, token.1) || (token.0.len() == 1 && !is_ideograph(
                token.0[0],
            ) && !is_known(dictionary, token.0) && token.1 == seq![to_hiragana(token.0[0])])
        }),
    decreases text.len() - start,
{
    annotation_is_within(dictionary, text, start);
    let token = annotation_at(dictionary, text, start)->0;
    if index == 0 {
        let length = longest_match(dictionary, text, start, text.len() - start);
        if length <= 0 {
            no_match_knows_nothing(dictionary, text, start, text.len() - start);
            assert(text.subrange(start, start + 1) =~= seq![text[start]]);
        }
    } else {
        rest_is_unambiguous(dictionary, text, start + token.0.len(), index - 1);
    }
}

proof fn no_match_knows_nothing(dictionary: Set<TextPair>, text: Seq<char>, start: int, length: int)
    requires
        length >= 1,
        longest_match(dictionary, text, start, length) <= 0,
    ensures
        !is_known(dictionary, text.subrange(start, start + 1)),
    decreases length,
{
    if length > 1 {
        no_match_knows_nothing(dictionary, text, start, length - 1);
    }
}

/// A dictionary that gives surfaces their readings.
#[derive(Debug)]
pub struct SurfaceReadingIndex {
    table: PairTable,
}

/// What a dictionary says of a surface.
enum Lookup {
    Unknown,
    Ambiguous,
    Reading(String),
}

impl View for SurfaceReadingIndex {
    type V = Set<TextPair>;

    closed spec fn view(&self) -> Set<TextPair> {
        self.table@
    }
}

impl SurfaceReadingIndex {
    pub closed spec fn well_formed(&self) -> bool {
        self.table.well_formed()
    }

    /// The dictionary with the given surfaces and readings.
    pub fn from_pairs(given: Vec<(String, String)>) -> (result: Self)
        ensures
            result.well_formed(),
            result@ == pairs(given@).to_set(),
    {
        SurfaceReadingIndex { table: PairTable::from_pairs(given) }
    }

    fn lookup(&self, surface: &str) -> (result: Lookup)
        requires
            self.well_formed(),
        ensures
            match result {
                Lookup::Unknown => !is_known(self@, surface@),
                Lookup::Ambiguous => is_known(self@, surface@) && only_reading(
                    self@,
                    surface@,
                ) is None,
                Lookup::Reading(reading) => is_known(self@, surface@) && only_reading(
                    self@,
                    surface@,
                ) == Some(reading@),
            },
    {
        let found: Vec<String> = self.table.partners(surface);
        let ghost all = texts(found@);
        if found.len() == 0 {
            assert forall|reading: Seq<char>| !self@.contains((surface@, reading)) by {
                assert(!all.contains(reading));
            }
            Lookup::Unknown
        } else if found.len() == 1 {
            let reading: String = found[0].clone();
            proof {
                assert(all[0] == reading@);
                assert(all.contains(reading@));
                assert(self@.contains((surface@, reading@)));
                assert forall|other: Seq<char>| #[trigger]
                    self@.contains((surface@, other)) implies other == reading@ by {
                    assert(all.contains(other));
                }
                assert(is_only_reading(self@, surface@, reading@));
                let chosen = choose|reading: Seq<char>|
                    is_only_reading(self@, surface@, reading);
                assert(self@.contains((surface@, chosen)));
            }
            Lookup::Reading(reading)
        } else {
            proof {
                assert(all.contains(all[0]));
                assert(all.contains(all[1]));
                assert(self@.contains((surface@, all[0])));
                assert(self@.contains((surface@, all[1])));
                assert(all[0] != all[1]);
                assert forall|reading: Seq<char>|
                    !is_only_reading(self@, surface@, reading) by {
                    if is_only_reading(self@, surface@, reading) {
                        assert(all[0] == reading);
                        assert(all[1] == reading);
                    }
                }
            }
            Lookup::Ambiguous
        }
    }

    fn annotate_at(&self, letters: &[char], start: usize) -> (result: Option<(String, String)>)
        requires
            self.well_formed(),
            start < letters@.len(),
        ensures
            result is Some <==> annotation_at(self@, letters@, start as int) is Some,
            result matches Some(token) ==> annotation_at(self@, letters@, start as int) == Some(
                (token.0@, token.1@),
            ),
    {
        let count: usize = letters.len();
        let total: usize = count - start;
        let mut length: usize = total;
        while length > 0
            invariant
                self.well_formed(),
                start < letters@.len(),
                count == letters@.len(),
                total == count - start,
                length <= total,
                longest_match(self@, letters@, start as int, total as int) == longest_match(
                    self@,
                    letters@,
                    start as int,
                    length as int,
                ),
            decreases length,
        {
            let surface: String = text_between(letters, start, start + length);
            match self.lookup(surface.as_str()) {
                Lookup::Unknown => {},
                Lookup::Ambiguous => {
                    return None;
                },
                Lookup::Reading(reading) => {
                    return Some((surface, reading));
                },
            }
            length -= 1;
        }
        let character: char = letters[start];
        if ideograph(character) {
            return None;
        }
        let mut surface: String = String::new();
        surface.push(character);
        let mut reading: String = String::new();
        reading.push(hiragana(character));
        assert(surface@ =~= seq![character]);
        assert(reading@ =~= seq![to_hiragana(character)]);
        Some((surface, reading))
    }

    /// The surfaces with their readings that a text is made of; `None` where no reading can be
    /// trusted.
    pub fn annotate(&self, text: &str) -> (result: Option<Vec<(String, String)>>)
        requires
            self.well_formed(),
        ensures
            result is Some <==> annotations(self@, text@) is Some,
            result matches Some(tokens) ==> annotations(self@, text@) == Some(pairs(tokens@)),
    {
        let letters: Vec<char> = characters(text);
        let mut result: Vec<(String, String)> = Vec::new();
        let mut place: usize = 0;
        proof {
            assert(pairs(result@) =~= Seq::<TextPair>::empty());
            if let Some(rest) = annotations_from(self@, text@, 0) {
                assert(pairs(result@) + rest =~= rest);
            }
        }
        while place < letters.len()
            invariant
                self.well_formed(),
                letters@ == text@,
                place <= letters@.len(),
                annotations(self@, text@) == match annotations_from(self@, text@, place as int) {
                    None => None::<Seq<TextPair>>,
                    Some(rest) => Some(pairs(result@) + rest),
                },
            decreases letters@.len() - place,
        {
            proof {
                annotation_is_within(self@, text@, place as int);
            }
            match self.annotate_at(letters.as_slice(), place) {
                None => {
                    return None;
                },
                Some(token) => {
                    let ghost before = pairs(result@);
                    let ghost view = (token.0@, token.1@);
                    let length: usize = crate::text::character_count(token.0.as_str());
                    result.push(token);
                    proof {
                        assert(pairs(result@) =~= before.push(view));
                        if let Some(rest) = annotations_from(
                            self@,
                            text@,
                            place as int + length as int,
                        ) {
                            assert(before + (seq![view] + rest) =~= pairs(result@) + rest);
                        }
                    }
                    place += length;
                },
            }
        }
        assert(pairs(result@) + Seq::<TextPair>::empty() =~= pairs(result@));
        Some(result)
    }

    /// The reading of a text; `None` where no reading can be trusted.
    pub fn reading(&self, text: &str) -> (result: Option<String>)
        requires
            self.well_formed(),
        ensures
            result is Some <==> derived_reading(self@, text@) is Some,
            result matches Some(reading) ==> derived_reading(self@, text@) == Some(reading@),
    {
        match self.annotate(text) {
            None => None,
            Some(tokens) => {
                let (_, reading) = join_tokens(tokens.as_slice());
                Some(reading)
            },
        }
    }

    /// The number of surfaces with one reading.
    pub fn len(&self) -> (result: usize)
        requires
            self.well_formed(),
        ensures
            result == unambiguous_surfaces(self@).len(),
            unambiguous_surfaces(self@).finite(),
    {
        let surfaces: Vec<String> = self.table.firsts();
        let ghost all = texts(surfaces@);
        let mut count: usize = 0;
        let ghost mut found: Set<Seq<char>> = Set::empty();
        for index in 0..surfaces.len()
            invariant
                self.well_formed(),
                all == texts(surfaces@),
                all.no_duplicates(),
                count <= index,
                found.finite(),
                count == found.len(),
                forall|surface: Seq<char>| #[trigger]
                    found.contains(surface) <==> only_reading(self@, surface) is Some && exists|
                        i: int,
                    |
                        0 <= i < index && all[i] == surface,
        {
            let ghost surface = all[index as int];
            let ghost before = found;
            assert(!found.contains(surface));
            match self.lookup(surfaces[index].as_str()) {
                Lookup::Reading(_) => {
                    count += 1;
                    proof {
                        found = found.insert(surface);
                    }
                },
                _ => {},
            }
            assert forall|other: Seq<char>| #[trigger]
                found.contains(other) <==> only_reading(self@, other) is Some && exists|i: int|
                    0 <= i < index + 1 && all[i] == other by {
                if other == surface {
                    assert(all[index as int] == other);
                    if only_reading(self@, other) is Some {
                        let reading = choose|reading: Seq<char>|
                            is_only_reading(self@, other, reading);
                        assert(is_known(self@, other));
                    }
                } else {
                    assert(found.contains(other) == before.contains(other));
                    if exists|i: int| 0 <= i < index + 1 && all[i] == other {
                        let i = choose|i: int| 0 <= i < index + 1 && all[i] == other;
                        assert(0 <= i < index && all[i] == other);
                    }
                }
            }
        }
        proof {
            assert forall|surface: Seq<char>|
                found.contains(surface) == unambiguous_surfaces(self@).contains(surface) by {
                if only_reading(self@, surface) is Some {
                    let reading = choose|reading: Seq<char>|
                        is_only_reading(self@, surface, reading);
                    assert(self@.contains((surface, reading)));
                    assert(all.contains(surface));
                }
            }
            assert(found =~= unambiguous_surfaces(self@));
        }
        count
    }
}

/// The surfaces with one reading.
pub open spec fn unambiguous_surfaces(dictionary: Set<TextPair>) -> Set<Seq<char>> {
    Set::new(|surface: Seq<char>| only_reading(dictionary, surface) is Some)
}

/// The readings and surfaces of a dictionary table: the first two columns of each line that has
/// them, the reading standing first.
pub open spec fn table_rows(rows: Seq<Seq<char>>) -> Seq<TextPair>
    decreases rows.len(),
{
    if rows.len() == 0 {
        Seq::empty()
    } else {
        let before = table_rows(rows.drop_last());
        let columns = split_on(rows.last(), '\t');
        if columns.len() < 2 {
            before
        } else {
            before.push((columns[0], columns[1]))
        }
    }
}

/// The readings and surfaces of a dictionary table.
pub fn dictionary_rows(source: &str) -> (result: Vec<(String, String)>)
    ensures
        pairs(result@) == table_rows(lines(source@)),
{
    let rows: Vec<String> = lines_of(source);
    let ghost all = lines(source@);
    let mut result: Vec<(String, String)> = Vec::new();
    assert(all.len() == rows@.len());
    assert(all.take(0) =~= Seq::<Seq<char>>::empty());
    assert(pairs(result@) =~= Seq::<TextPair>::empty());
    for index in 0..rows.len()
        invariant
            all == texts(rows@),
            all.len() == rows@.len(),
            pairs(result@) == table_rows(all.take(index as int)),
    {
        assert(all.take(index + 1).drop_last() =~= all.take(index as int));
        assert(all[index as int] == rows@[index as int]@);
        let columns: Vec<String> = columns_of(rows[index].as_str(), '\t');
        let ghost split = split_on(all[index as int], '\t');
        assert(texts(columns@) == split);
        if columns.len() >= 2 {
            let ghost before = pairs(result@);
            assert(split[0] == columns@[0]@ && split[1] == columns@[1]@);
            result.push((columns[0].clone(), columns[1].clone()));
            assert(pairs(result@) =~= before.push((split[0], split[1])));
        }
    }
    assert(all.take(all.len() as int) =~= all);
    result
}

// ---------------------------------------------------------------------------
// Which surfaces are taken
// ---------------------------------------------------------------------------

/// The longest surface is taken: a longer one is not known, and it is known itself, if there is one.
pub proof fn the_longest_surface_is_taken(
    dictionary: Set<TextPair>,
    text: Seq<char>,
    start: int,
    length: int,
)
    requires
        0 <= start,
        0 <= length <= text.len() - start,
    ensures
        ({
            let found = longest_match(dictionary, text, start, length);
            &&& 0 <= found <= length
            &&& found > 0 ==> is_known(dictionary, text.subrange(start, start + found))
            &&& forall|more: int|
                found < more <= length ==> !is_known(
                    dictionary,
                    #[trigger] text.subrange(start, start + more),
                )
        }),
    decreases length,
{
    if length > 0 {
        the_longest_surface_is_taken(dictionary, text, start, length - 1);
    }
}

/// Annotation goes from left to right: what follows a surface is annotated as a text of its own
/// would be at that place.
pub proof fn annotation_goes_on_behind_a_surface(
    dictionary: Set<TextPair>,
    text: Seq<char>,
    start: int,
)
    requires
        0 <= start < text.len(),
        annotations_from(dictionary, text, start) is Some,
    ensures
        ({
            let found = annotations_from(dictionary, text, start)->0;
            let token = found[0];
            let length = longest_match(dictionary, text, start, text.len() - start);
            &&& found.len() > 0
            &&& token.0 == text.subrange(start, start + (if length > 0 { length } else { 1 }))
            &&& length > 0 ==> is_only_reading(dictionary, token.0, token.1)
            &&& length == 0 ==> token.1 == seq![to_hiragana(text[start])]
            &&& annotations_from(dictionary, text, start + token.0.len()) == Some(found.skip(1))
        }),
{
    let found = annotations_from(dictionary, text, start)->0;
    let token = annotation_at(dictionary, text, start)->0;
    let length = longest_match(dictionary, text, start, text.len() - start);
    the_longest_surface_is_taken(dictionary, text, start, text.len() - start);
    let rest = annotations_from(dictionary, text, start + token.0.len())->0;
    assert(found == seq![token] + rest);
    assert(found.skip(1) =~= rest);
    assert(found[0] == token);
    if length == 0 {
        assert(seq![text[start]] =~= text.subrange(start, start + 1));
    } else {
        let reading = choose|reading: Seq<char>| is_only_reading(dictionary, token.0, reading);
        assert(is_only_reading(dictionary, token.0, reading));
    }
}

/// A row of a dictionary table with a reading, a surface and whatever else gives this pair; a row
/// without a tab gives none.
pub proof fn a_table_row_gives_its_pair(rows: Seq<Seq<char>>, columns: Seq<Seq<char>>)
    requires
        columns.len() >= 1,
        forall|i: int| 0 <= i < columns.len() ==> !(#[trigger] columns[i]).contains('\t'),
    ensures
        ({
            let row = crate::text::join_with(columns, '\t');
            &&& columns.len() >= 2 ==> table_rows(rows.push(row)) == table_rows(rows).push(
                (columns[0], columns[1]),
            )
            &&& columns.len() == 1 ==> table_rows(rows.push(row)) == table_rows(rows)
        }),
        table_rows(Seq::<Seq<char>>::empty()).len() == 0,
{
    let row = crate::text::join_with(columns, '\t');
    crate::text::joined_columns_split_again(columns, '\t');
    assert(rows.push(row).drop_last() =~= rows);
}

} // verus!
