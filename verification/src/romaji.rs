//! Incremental composition of hiragana from romaji.

use vstd::prelude::*;
use vstd::seq_lib::*;
use vstd::string::*;

use crate::order::{
    place_text, sorted, text_before, text_order_is_asymmetric, text_order_is_total,
    text_order_is_transitive, Placement, Ranked,
};
use crate::primitives::{character_debug, debug_character};
use crate::romaji_table::{
    entries_are_plain_and_never_empty, is_built_of_consonants_and_a_vowel, is_plain_spelling,
    is_spelling_key, spellings_differ, vowel, ROMAJI_TABLE, ROMAJI_TABLE_LENGTH,
};
use crate::text::{ascii_letter, begins_with, characters, is_ascii_letter, same_text, text_between, text_of};

verus! {

/// A character that no romaji spelling holds.
#[derive(Clone, Copy, Debug, PartialEq, Eq, Structural)]
pub struct InvalidRomaji(pub char);

impl InvalidRomaji {
    /// The message for the user.
    pub fn message(&self) -> (result: String)
        ensures
            result@ == "unsupported romaji character: "@ + character_debug(self.0),
    {
        let mut result: String = "unsupported romaji character: ".to_owned();
        let shown: String = debug_character(self.0);
        result.append(shown.as_str());
        result
    }
}

// ---------------------------------------------------------------------------
// The composition rules
// ---------------------------------------------------------------------------

/// Whether the composer takes the character: an ASCII letter or an apostrophe.
pub open spec fn is_romaji_key(character: char) -> bool {
    is_ascii_letter(character) || character == '\''
}

/// The lower case of an ASCII letter; every other character as it is.
pub open spec fn lower(character: char) -> char {
    if 'A' <= character <= 'Z' {
        (character as u32 + 32) as u8 as char
    } else {
        character
    }
}

pub open spec fn consonant(character: char) -> bool {
    is_ascii_letter(character) && !vowel(character)
}

/// The romaji of the table's entry at `index`.
pub open spec fn romaji_at(index: int) -> Seq<char> {
    ROMAJI_TABLE@[index].0@
}

/// The kana of the table's entry at `index`.
pub open spec fn kana_at(index: int) -> Seq<char> {
    ROMAJI_TABLE@[index].1@
}

/// The kana of the first entry from `index` on that is spelled exactly `romaji`.
pub open spec fn spelling_from(romaji: Seq<char>, index: int) -> Option<Seq<char>>
    decreases ROMAJI_TABLE_LENGTH - index,
{
    if index < 0 || index >= ROMAJI_TABLE_LENGTH {
        None
    } else if romaji_at(index) == romaji {
        Some(kana_at(index))
    } else {
        spelling_from(romaji, index + 1)
    }
}

/// The kana that `romaji` spells on its own.
pub open spec fn spelling(romaji: Seq<char>) -> Option<Seq<char>> {
    spelling_from(romaji, 0)
}

/// Whether some entry starts with `romaji`.
pub open spec fn starts_entry(romaji: Seq<char>) -> bool {
    exists|i: int|
        0 <= i < ROMAJI_TABLE_LENGTH && romaji.is_prefix_of(#[trigger] romaji_at(i))
}

/// Whether some entry starts with `romaji` and goes on behind it.
pub open spec fn starts_longer_entry(romaji: Seq<char>) -> bool {
    exists|i: int|
        0 <= i < ROMAJI_TABLE_LENGTH && romaji.is_prefix_of(#[trigger] romaji_at(i))
            && romaji_at(i).len() > romaji.len()
}

/// What the pending keys allow: to wait for the next key, or to commit `kana` for the first
/// `consumed` keys.
pub enum Step {
    Wait,
    Commit { kana: Seq<char>, consumed: int },
}

/// The next step on the pending keys. With `flush` no further key will come.
pub open spec fn step(pending: Seq<char>, flush: bool) -> Step {
    if pending.len() == 0 || pending == seq!['t', 'c'] {
        Step::Wait
    } else if pending.len() >= 3 && pending[0] == 't' && pending[1] == 'c' && pending[2] == 'h' {
        Step::Commit { kana: seq!['っ'], consumed: 1 }
    } else if pending.len() >= 2 && pending[0] == pending[1] && consonant(pending[0]) && pending[0]
        != 'n' {
        Step::Commit { kana: seq!['っ'], consumed: 1 }
    } else if pending.len() >= 2 && pending[0] == 'n' && pending[1] == '\'' {
        Step::Commit { kana: seq!['ん'], consumed: 2 }
    } else if pending.len() >= 2 && pending[0] == 'n' && pending[1] == 'n' {
        if pending.len() == 2 && !flush {
            Step::Wait
        } else {
            Step::Commit { kana: seq!['ん'], consumed: 2 }
        }
    } else if pending.len() >= 2 && pending[0] == 'n' && !vowel(pending[1]) && pending[1] != 'y' {
        Step::Commit { kana: seq!['ん'], consumed: 1 }
    } else if spelling(pending) is Some && (flush || !starts_longer_entry(pending)) {
        Step::Commit { kana: spelling(pending)->0, consumed: pending.len() as int }
    } else if starts_entry(pending) || pending.len() == 1 {
        Step::Wait
    } else {
        Step::Commit { kana: seq![pending[0]], consumed: 1 }
    }
}

/// The text that the pending keys commit, and the keys that stay pending.
pub open spec fn settle(pending: Seq<char>, flush: bool) -> (Seq<char>, Seq<char>)
    decreases pending.len(),
{
    match step(pending, flush) {
        Step::Wait => (Seq::empty(), pending),
        Step::Commit { kana, consumed } => {
            if 0 < consumed <= pending.len() {
                let (text, rest) = settle(pending.skip(consumed), flush);
                (kana + text, rest)
            } else {
                (Seq::empty(), pending)
            }
        },
    }
}

/// The text of the pending keys once no further key comes: what they commit, and the rest as
/// it was typed.
pub open spec fn flushed(pending: Seq<char>) -> Seq<char> {
    settle(pending, true).0 + settle(pending, true).1
}

// ---------------------------------------------------------------------------
// Laws
// ---------------------------------------------------------------------------

/// A step always takes at least one key, and no more than there are.
pub proof fn step_consumes_pending_keys(pending: Seq<char>, flush: bool)
    ensures
        step(pending, flush) matches Step::Commit { kana, consumed } ==> 0 < consumed
            <= pending.len(),
{
}

/// Settled keys wait: settling them once more commits nothing and keeps them.
pub proof fn settling_twice_changes_nothing(pending: Seq<char>, flush: bool)
    ensures
        step(settle(pending, flush).1, flush) is Wait,
        settle(settle(pending, flush).1, flush) == (Seq::<char>::empty(), settle(pending, flush).1),
    decreases pending.len(),
{
    if let Step::Commit { kana, consumed } = step(pending, flush) {
        settling_twice_changes_nothing(pending.skip(consumed), flush);
    }
}

/// What stays pending is always the end of what was typed.
pub proof fn pending_keys_are_the_last_typed(pending: Seq<char>, flush: bool)
    ensures
        settle(pending, flush).1.len() <= pending.len(),
        settle(pending, flush).1 == pending.skip(pending.len() - settle(pending, flush).1.len()),
    decreases pending.len(),
{
    if let Step::Commit { kana, consumed } = step(pending, flush) {
        let rest = pending.skip(consumed);
        pending_keys_are_the_last_typed(rest, flush);
        let kept = settle(rest, flush).1;
        assert(rest.skip(rest.len() - kept.len()) =~= pending.skip(pending.len() - kept.len()));
    } else {
        assert(pending.skip(0) =~= pending);
    }
}

/// A key that commits nothing stays pending, so that one backspace takes it back.
pub proof fn backspace_takes_back_an_open_key(pending: Seq<char>, key: char)
    requires
        step(pending.push(key), false) is Wait,
    ensures
        settle(pending.push(key), false) == (Seq::<char>::empty(), pending.push(key)),
        settle(pending.push(key), false).1.drop_last() == pending,
{
    assert(pending.push(key).drop_last() =~= pending);
}

/// No key is dropped silently: a key that is pushed leaves text behind or stays pending.
pub proof fn no_key_is_lost(pending: Seq<char>, flush: bool)
    requires
        pending.len() > 0,
    ensures
        settle(pending, flush).0.len() + settle(pending, flush).1.len() > 0,
    decreases pending.len(),
{
    if let Step::Commit { kana, consumed } = step(pending, flush) {
        assert(kana.len() > 0) by {
            if spelling(pending) is Some {
                spelling_comes_from_the_table(pending, 0);
                entries_are_plain_and_never_empty();
            }
        }
    }
}

/// An entry is found by its spelling.
pub proof fn an_entry_is_found_by_its_spelling(index: int)
    requires
        0 <= index < ROMAJI_TABLE_LENGTH,
    ensures
        spelling(romaji_at(index)) == Some(kana_at(index)),
{
    every_entry_has_a_spelling(index, 0);
    spelling_comes_from_the_table(romaji_at(index), 0);
    let found = choose|i: int|
        0 <= i < ROMAJI_TABLE_LENGTH && #[trigger] romaji_at(i) == romaji_at(index) && kana_at(i)
            == spelling(romaji_at(index))->0;
    spellings_differ(found, index);
}

/// The keys of an entry, once no further key comes, give its kana and nothing else.
pub proof fn a_spelling_flushes_to_its_kana(index: int)
    requires
        0 <= index < ROMAJI_TABLE_LENGTH,
    ensures
        flushed(romaji_at(index)) == kana_at(index),
{
    let romaji = romaji_at(index);
    let kana = kana_at(index);
    entries_are_plain_and_never_empty();
    assert(is_plain_spelling(ROMAJI_TABLE@[index].0@));
    an_entry_is_found_by_its_spelling(index);
    assert(step(romaji, true) == Step::Commit { kana, consumed: romaji.len() as int });
    assert(romaji.skip(romaji.len() as int) =~= Seq::<char>::empty());
    assert(settle(Seq::<char>::empty(), true) == (Seq::<char>::empty(), Seq::<char>::empty()));
    assert(flushed(romaji) =~= kana);
}

/// What typing the keys one by one commits, and the keys that stay pending.
pub open spec fn typed(keys: Seq<char>) -> (Seq<char>, Seq<char>)
    decreases keys.len(),
{
    if keys.len() == 0 {
        (Seq::empty(), Seq::empty())
    } else {
        let (text, pending) = typed(keys.drop_last());
        let (more, rest) = settle(pending.push(keys.last()), false);
        (text + more, rest)
    }
}

/// The start of an entry waits for the keys that follow.
proof fn the_start_of_an_entry_waits(index: int, count: int)
    requires
        0 <= index < ROMAJI_TABLE_LENGTH,
        0 <= count < romaji_at(index).len(),
    ensures
        step(romaji_at(index).take(count), false) is Wait,
{
    let romaji = romaji_at(index);
    let start = romaji.take(count);
    entries_are_plain_and_never_empty();
    assert(is_plain_spelling(ROMAJI_TABLE@[index].0@));
    assert(start.is_prefix_of(romaji_at(index)));
    assert(starts_longer_entry(start));
    assert(starts_entry(start));
}

proof fn starts_of_an_entry_stay_pending(index: int, count: int)
    requires
        0 <= index < ROMAJI_TABLE_LENGTH,
        0 <= count < romaji_at(index).len(),
    ensures
        typed(romaji_at(index).take(count)) == (
            Seq::<char>::empty(),
            romaji_at(index).take(count),
        ),
    decreases count,
{
    let start = romaji_at(index).take(count);
    let nothing = Seq::<char>::empty();
    if count > 0 {
        starts_of_an_entry_stay_pending(index, count - 1);
        the_start_of_an_entry_waits(index, count);
        let before = romaji_at(index).take(count - 1);
        assert(start.drop_last() =~= before);
        assert(before.push(start.last()) =~= start);
        assert(settle(start, false) == (nothing, start));
        assert(nothing + nothing =~= nothing);
    } else {
        assert(start =~= nothing);
    }
}

/// Every spelling of the table, typed key by key and flushed, gives its kana. Its keys are all
/// taken as they are.
pub proof fn a_typed_spelling_gives_its_kana(index: int)
    requires
        0 <= index < ROMAJI_TABLE_LENGTH,
    ensures
        forall|k: int|
            0 <= k < romaji_at(index).len() ==> is_romaji_key(#[trigger] romaji_at(index)[k])
                && lower(romaji_at(index)[k]) == romaji_at(index)[k],
        ({
            let (text, rest) = typed(romaji_at(index));
            text + flushed(rest) == kana_at(index)
        }),
{
    let romaji = romaji_at(index);
    let kana = kana_at(index);
    let nothing = Seq::<char>::empty();
    entries_are_plain_and_never_empty();
    assert(is_plain_spelling(ROMAJI_TABLE@[index].0@));
    assert forall|k: int| 0 <= k < romaji.len() implies is_romaji_key(#[trigger] romaji[k]) && lower(
        romaji[k],
    ) == romaji[k] by {
        assert(is_spelling_key(ROMAJI_TABLE@[index].0@[k]));
    }
    let count = romaji.len() - 1;
    let before = romaji.take(count);
    starts_of_an_entry_stay_pending(index, count);
    assert(romaji.drop_last() =~= before);
    assert(before.push(romaji.last()) =~= romaji);
    an_entry_is_found_by_its_spelling(index);
    a_spelling_flushes_to_its_kana(index);
    assert(romaji.is_prefix_of(romaji_at(index)));
    assert(starts_entry(romaji));
    if starts_longer_entry(romaji) {
        assert(settle(romaji, false) == (nothing, romaji));
        assert(nothing + nothing + flushed(romaji) =~= kana);
    } else {
        assert(step(romaji, false) == Step::Commit { kana, consumed: romaji.len() as int });
        assert(romaji.skip(romaji.len() as int) =~= nothing);
        assert(settle(nothing, false) == (nothing, nothing));
        assert(settle(romaji, false) == (kana + nothing, nothing));
        assert(flushed(nothing) =~= nothing);
        assert(nothing + (kana + nothing) + flushed(nothing) =~= kana);
    }
}

// ---------------------------------------------------------------------------
// The pending keys
// ---------------------------------------------------------------------------

/// Whether keys can stay pending: there are none, or they are `nn`, `tc`, an apostrophe, or the
/// start of a longer entry.
pub open spec fn is_open(pending: Seq<char>) -> bool {
    pending.len() == 0 || pending == seq!['n', 'n'] || pending == seq!['t', 'c'] || pending
        == seq!['\''] || starts_longer_entry(pending)
}

/// Something that is done with a composer.
pub enum Act {
    Push(char),
    Backspace,
    Flush,
    Clear,
}

/// The keys that are pending after an act.
pub open spec fn pending_after(pending: Seq<char>, act: Act) -> Seq<char> {
    match act {
        Act::Push(character) => if is_romaji_key(character) {
            settle(pending.push(lower(character)), false).1
        } else {
            pending
        },
        Act::Backspace => if pending.len() > 0 {
            pending.drop_last()
        } else {
            pending
        },
        Act::Flush => Seq::empty(),
        Act::Clear => Seq::empty(),
    }
}

/// The keys that are pending after all that was done with a new composer.
pub open spec fn pending_after_all(acts: Seq<Act>) -> Seq<char>
    decreases acts.len(),
{
    if acts.len() == 0 {
        Seq::empty()
    } else {
        pending_after(pending_after_all(acts.drop_last()), acts.last())
    }
}

/// The place of an entry that begins with the consonant and goes on behind it.
spec fn place_that_begins_with(key: char) -> int {
    if key == 'k' {
        5
    } else if key == 'g' {
        15
    } else if key == 's' {
        25
    } else if key == 'z' {
        40
    } else if key == 'j' {
        42
    } else if key == 't' {
        65
    } else if key == 'c' {
        67
    } else if key == 'd' {
        103
    } else if key == 'n' {
        126
    } else if key == 'x' {
        137
    } else if key == 'h' {
        138
    } else if key == 'f' {
        141
    } else if key == 'b' {
        161
    } else if key == 'p' {
        171
    } else if key == 'm' {
        181
    } else if key == 'y' {
        191
    } else if key == 'r' {
        194
    } else if key == 'w' {
        204
    } else if key == 'v' {
        216
    } else if key == 'l' {
        232
    } else {
        262
    }
}

proof fn consonants_begin_entries(key: char)
    requires
        'a' <= key <= 'z',
        !vowel(key),
    ensures
        starts_longer_entry(seq![key]),
{
    reveal_strlit("ka");
    reveal_strlit("ga");
    reveal_strlit("sa");
    reveal_strlit("za");
    reveal_strlit("ji");
    reveal_strlit("ta");
    reveal_strlit("chi");
    reveal_strlit("da");
    reveal_strlit("na");
    reveal_strlit("xn");
    reveal_strlit("ha");
    reveal_strlit("fu");
    reveal_strlit("ba");
    reveal_strlit("pa");
    reveal_strlit("ma");
    reveal_strlit("ya");
    reveal_strlit("ra");
    reveal_strlit("wa");
    reveal_strlit("va");
    reveal_strlit("lya");
    reveal_strlit("qa");
    let keys = seq![key];
    let place = place_that_begins_with(key);
    assert(romaji_at(place)[0] == key && romaji_at(place).len() > 1);
    assert(romaji_at(place).subrange(0, 1) =~= keys);
    assert(keys.is_prefix_of(romaji_at(place)));
}

proof fn vowels_are_entries(key: char)
    requires
        vowel(key),
    ensures
        spelling(seq![key]) is Some,
        !starts_longer_entry(seq![key]),
{
    reveal_strlit("a");
    reveal_strlit("i");
    reveal_strlit("u");
    reveal_strlit("e");
    reveal_strlit("o");
    let keys = seq![key];
    let place: int = if key == 'a' {
        0
    } else if key == 'i' {
        1
    } else if key == 'u' {
        2
    } else if key == 'e' {
        3
    } else {
        4
    };
    assert(romaji_at(place) =~= keys);
    every_entry_has_a_spelling(place, 0);
    entries_are_plain_and_never_empty();
    assert forall|i: int|
        0 <= i < ROMAJI_TABLE_LENGTH && keys.is_prefix_of(#[trigger] romaji_at(i)) implies romaji_at(
        i,
    ).len() <= 1 by {
        assert(romaji_at(i).subrange(0, 1)[0] == key);
        assert(vowel(ROMAJI_TABLE@[i].0@[0]));
    }
}

proof fn waiting_keys_are_open(pending: Seq<char>)
    requires
        step(pending, false) is Wait,
        forall|k: int| 0 <= k < pending.len() ==> is_spelling_key(#[trigger] pending[k]),
    ensures
        is_open(pending),
{
    if pending.len() == 1 {
        let key = pending[0];
        assert(pending =~= seq![key]);
        assert(is_spelling_key(key));
        if vowel(key) {
            vowels_are_entries(key);
        } else if key != '\'' {
            consonants_begin_entries(key);
        }
    } else if pending.len() == 2 && pending[0] == 'n' && pending[1] == 'n' {
        assert(pending =~= seq!['n', 'n']);
    } else if pending.len() > 0 && pending != seq!['t', 'c'] {
        assert(starts_entry(pending));
        let i = choose|i: int|
            0 <= i < ROMAJI_TABLE_LENGTH && pending.is_prefix_of(#[trigger] romaji_at(i));
        if romaji_at(i).len() == pending.len() {
            assert(romaji_at(i) =~= pending);
            every_entry_has_a_spelling(i, 0);
        }
    }
}

/// Whatever keys were typed, those that settling keeps can stay pending.
pub proof fn settled_keys_are_open(keys: Seq<char>)
    requires
        forall|k: int| 0 <= k < keys.len() ==> is_spelling_key(#[trigger] keys[k]),
    ensures
        is_open(settle(keys, false).1),
{
    let kept = settle(keys, false).1;
    settling_twice_changes_nothing(keys, false);
    pending_keys_are_the_last_typed(keys, false);
    assert forall|k: int| 0 <= k < kept.len() implies is_spelling_key(#[trigger] kept[k]) by {
        assert(kept[k] == keys[keys.len() - kept.len() + k]);
    }
    waiting_keys_are_open(kept);
}

/// Keys that can stay pending are at most three, each a small letter or an apostrophe.
pub proof fn open_keys_are_few(pending: Seq<char>)
    requires
        is_open(pending),
    ensures
        pending.len() <= 3,
        forall|k: int| 0 <= k < pending.len() ==> is_spelling_key(#[trigger] pending[k]),
{
    if starts_longer_entry(pending) {
        let i = choose|i: int|
            0 <= i < ROMAJI_TABLE_LENGTH && pending.is_prefix_of(#[trigger] romaji_at(i))
                && romaji_at(i).len() > pending.len();
        entries_are_plain_and_never_empty();
        assert(is_built_of_consonants_and_a_vowel(ROMAJI_TABLE@[i].0@));
        assert forall|k: int| 0 <= k < pending.len() implies is_spelling_key(
            #[trigger] pending[k],
        ) by {
            assert(romaji_at(i).subrange(0, pending.len() as int)[k] == romaji_at(i)[k]);
            assert(is_spelling_key(ROMAJI_TABLE@[i].0@[k]));
        }
    }
}

proof fn an_act_keeps_keys_open(pending: Seq<char>, act: Act)
    requires
        is_open(pending),
    ensures
        is_open(pending_after(pending, act)),
{
    match act {
        Act::Push(character) => {
            if is_romaji_key(character) {
                let key = lower(character);
                let keys = pending.push(key);
                assert(is_spelling_key(key));
                open_keys_are_few(pending);
                assert forall|k: int| 0 <= k < keys.len() implies is_spelling_key(
                    #[trigger] keys[k],
                ) by {
                    if k < pending.len() {
                        assert(keys[k] == pending[k]);
                    }
                }
                settled_keys_are_open(keys);
            }
        },
        Act::Backspace => {
            if pending.len() > 0 {
                let rest = pending.drop_last();
                if starts_longer_entry(pending) {
                    let i = choose|i: int|
                        0 <= i < ROMAJI_TABLE_LENGTH && pending.is_prefix_of(#[trigger] romaji_at(i))
                            && romaji_at(i).len() > pending.len();
                    assert(rest =~= romaji_at(i).subrange(0, rest.len() as int)) by {
                        assert forall|k: int| 0 <= k < rest.len() implies rest[k] == romaji_at(
                            i,
                        )[k] by {
                            assert(romaji_at(i).subrange(0, pending.len() as int)[k] == romaji_at(
                                i,
                            )[k]);
                        }
                    }
                    assert(rest.is_prefix_of(romaji_at(i)));
                } else if rest.len() > 0 {
                    assert(rest =~= seq![pending[0]]);
                    consonants_begin_entries(pending[0]);
                }
            }
        },
        Act::Flush => {},
        Act::Clear => {},
    }
}

/// Whatever was done with a composer, its pending keys are none, `nn`, `tc`, an apostrophe, or
/// the start of a longer entry; so they are at most three.
pub proof fn pending_keys_are_open(acts: Seq<Act>)
    ensures
        is_open(pending_after_all(acts)),
        pending_after_all(acts).len() <= 3,
        forall|k: int|
            0 <= k < pending_after_all(acts).len() ==> is_spelling_key(
                #[trigger] pending_after_all(acts)[k],
            ),
    decreases acts.len(),
{
    if acts.len() > 0 {
        pending_keys_are_open(acts.drop_last());
        an_act_keeps_keys_open(pending_after_all(acts.drop_last()), acts.last());
    }
    open_keys_are_few(pending_after_all(acts));
}

proof fn only_n_is_an_entry_and_a_start(pending: Seq<char>)
    requires
        starts_longer_entry(pending),
        spelling(pending) is Some,
    ensures
        pending == seq!['n'],
{
    let i = choose|i: int|
        0 <= i < ROMAJI_TABLE_LENGTH && pending.is_prefix_of(#[trigger] romaji_at(i)) && romaji_at(
            i,
        ).len() > pending.len();
    spelling_comes_from_the_table(pending, 0);
    let j = choose|j: int|
        0 <= j < ROMAJI_TABLE_LENGTH && #[trigger] romaji_at(j) == pending && kana_at(j)
            == spelling(pending)->0;
    entries_are_plain_and_never_empty();
    assert(is_built_of_consonants_and_a_vowel(ROMAJI_TABLE@[i].0@));
    assert(is_built_of_consonants_and_a_vowel(ROMAJI_TABLE@[j].0@));
    assert forall|k: int| 0 <= k < pending.len() implies pending[k] == romaji_at(i)[k] && !vowel(
        pending[k],
    ) by {
        assert(romaji_at(i).subrange(0, pending.len() as int)[k] == romaji_at(i)[k]);
        assert(!vowel(ROMAJI_TABLE@[i].0@[k]));
    }
    assert(!vowel(pending[pending.len() - 1]));
}

/// Keys that can stay pending are flushed as they were typed, but for `n` and `nn`, which give
/// ん. Nothing is left to flush afterwards.
pub proof fn only_n_flushes_to_kana(pending: Seq<char>)
    requires
        is_open(pending),
    ensures
        flushed(pending) == (if pending == seq!['n'] || pending == seq!['n', 'n'] {
            seq!['ん']
        } else {
            pending
        }),
        flushed(Seq::<char>::empty()) == Seq::<char>::empty(),
{
    let nothing = Seq::<char>::empty();
    assert(settle(nothing, true) == (nothing, nothing));
    assert(flushed(nothing) =~= nothing);
    if pending.len() == 0 {
        assert(pending =~= nothing);
    } else if pending == seq!['n', 'n'] {
        assert(pending.skip(2) =~= nothing);
        assert(flushed(pending) =~= seq!['ん']);
    } else if pending == seq!['t', 'c'] {
        assert(flushed(pending) =~= pending);
    } else if pending == seq!['\''] {
        if spelling(pending) is Some {
            spelling_comes_from_the_table(pending, 0);
            let j = choose|j: int|
                0 <= j < ROMAJI_TABLE_LENGTH && #[trigger] romaji_at(j) == pending && kana_at(j)
                    == spelling(pending)->0;
            entries_are_plain_and_never_empty();
            assert(is_built_of_consonants_and_a_vowel(ROMAJI_TABLE@[j].0@));
            assert(seq!['n'][0] == 'n');
        }
        assert(flushed(pending) =~= pending);
    } else {
        let i = choose|i: int|
            0 <= i < ROMAJI_TABLE_LENGTH && pending.is_prefix_of(#[trigger] romaji_at(i))
                && romaji_at(i).len() > pending.len();
        entries_are_plain_and_never_empty();
        assert(is_plain_spelling(ROMAJI_TABLE@[i].0@));
        assert forall|k: int| 0 <= k < pending.len() implies pending[k] == romaji_at(i)[k] by {
            assert(romaji_at(i).subrange(0, pending.len() as int)[k] == romaji_at(i)[k]);
        }
        assert(starts_entry(pending));
        if spelling(pending) is Some {
            only_n_is_an_entry_and_a_start(pending);
            reveal_strlit("n");
            reveal_strlit("ん");
            assert(romaji_at(136) =~= pending);
            an_entry_is_found_by_its_spelling(136);
            assert(kana_at(136) =~= seq!['ん']);
            assert(pending.skip(1) =~= nothing);
            assert(flushed(pending) =~= seq!['ん']);
        } else {
            assert(settle(pending, true) == (nothing, pending));
            assert(flushed(pending) =~= pending);
            if pending == seq!['n'] {
                reveal_strlit("n");
                assert(romaji_at(136) =~= pending);
                every_entry_has_a_spelling(136, 0);
            }
        }
    }
}

// ---------------------------------------------------------------------------
// Words
// ---------------------------------------------------------------------------

/// What typing the keys one by one behind pending ones commits, and the keys that stay pending.
pub open spec fn typed_behind(pending: Seq<char>, keys: Seq<char>) -> (Seq<char>, Seq<char>)
    decreases keys.len(),
{
    if keys.len() == 0 {
        (Seq::empty(), pending)
    } else {
        let (text, open) = typed_behind(pending, keys.drop_last());
        let (more, rest) = settle(open.push(keys.last()), false);
        (text + more, rest)
    }
}

/// Typing goes on where it stopped: what is typed later does not change what was committed.
pub proof fn typing_goes_on_behind_pending_keys(first: Seq<char>, second: Seq<char>)
    ensures
        ({
            let (text, pending) = typed(first);
            let (more, rest) = typed_behind(pending, second);
            typed(first + second) == (text + more, rest)
        }),
    decreases second.len(),
{
    let (text, pending) = typed(first);
    if second.len() == 0 {
        assert(first + second =~= first);
        assert(text + Seq::<char>::empty() =~= text);
    } else {
        let shorter = second.drop_last();
        typing_goes_on_behind_pending_keys(first, shorter);
        assert((first + second).drop_last() =~= first + shorter);
        assert((first + second).last() == second.last());
        let (more, open) = typed_behind(pending, shorter);
        let (added, rest) = settle(open.push(second.last()), false);
        assert((text + more) + added =~= text + (more + added));
    }
}

proof fn typing_behind_nothing(keys: Seq<char>)
    ensures
        typed_behind(Seq::empty(), keys) == typed(keys),
    decreases keys.len(),
{
    if keys.len() > 0 {
        typing_behind_nothing(keys.drop_last());
    }
}

proof fn typing_one_key(pending: Seq<char>, key: char)
    ensures
        typed_behind(pending, seq![key]) == settle(pending.push(key), false),
        typed(seq![key]) == settle(seq![key], false),
{
    let nothing = Seq::<char>::empty();
    let keys = seq![key];
    assert(keys.drop_last() =~= nothing);
    assert(typed_behind(pending, nothing) == (nothing, pending));
    assert(typed(nothing) == (nothing, nothing));
    assert(nothing.push(key) =~= keys);
    let (more, rest) = settle(pending.push(key), false);
    assert(nothing + more =~= more);
    let (more, rest) = settle(keys, false);
    assert(nothing + more =~= more);
}

proof fn an_entry_is_committed_at_its_last_key(index: int)
    requires
        0 <= index < ROMAJI_TABLE_LENGTH,
        romaji_at(index) != seq!['n'],
    ensures
        typed(romaji_at(index)) == (kana_at(index), Seq::<char>::empty()),
{
    let romaji = romaji_at(index);
    let kana = kana_at(index);
    let nothing = Seq::<char>::empty();
    entries_are_plain_and_never_empty();
    assert(is_plain_spelling(ROMAJI_TABLE@[index].0@));
    let count = romaji.len() - 1;
    let before = romaji.take(count);
    starts_of_an_entry_stay_pending(index, count);
    assert(romaji.drop_last() =~= before);
    assert(before.push(romaji.last()) =~= romaji);
    an_entry_is_found_by_its_spelling(index);
    if starts_longer_entry(romaji) {
        only_n_is_an_entry_and_a_start(romaji);
    }
    assert(step(romaji, false) == Step::Commit { kana, consumed: romaji.len() as int });
    assert(romaji.skip(romaji.len() as int) =~= nothing);
    assert(settle(nothing, false) == (nothing, nothing));
    assert(kana + nothing =~= kana);
    assert(nothing + kana =~= kana);
}

proof fn the_rest_of_an_entry_is_committed(index: int, count: int)
    requires
        0 <= index < ROMAJI_TABLE_LENGTH,
        romaji_at(index) != seq!['n'],
        0 <= count < romaji_at(index).len(),
    ensures
        typed_behind(romaji_at(index).take(count), romaji_at(index).skip(count)) == (
            kana_at(index),
            Seq::<char>::empty(),
        ),
{
    let romaji = romaji_at(index);
    let (start, end) = (romaji.take(count), romaji.skip(count));
    an_entry_is_committed_at_its_last_key(index);
    starts_of_an_entry_stay_pending(index, count);
    typing_goes_on_behind_pending_keys(start, end);
    assert(start + end =~= romaji);
    let (more, rest) = typed_behind(start, end);
    assert(Seq::<char>::empty() + more =~= more);
}

/// The key of a consonant other than `n`.
pub open spec fn doubles(key: char) -> bool {
    'a' <= key <= 'z' && key != 'a' && key != 'i' && key != 'u' && key != 'e' && key != 'o' && key
        != 'n'
}

/// A part of a word as it is typed: an entry of the table, an entry behind its own first consonant
/// or behind the `t` of `tch`, an entry behind one or two `n`, or `n'`.
pub enum Syllable {
    Entry(int),
    Doubled(int),
    Tch(int),
    SingleN(int),
    DoubleN(int),
    ApostropheN,
}

/// Whether the part can be typed in this way. The entry `n` alone is no part of a word: what it
/// gives depends on what follows.
pub open spec fn is_syllable(syllable: Syllable) -> bool {
    match syllable {
        Syllable::Entry(index) => 0 <= index < ROMAJI_TABLE_LENGTH && romaji_at(index) != seq!['n'],
        Syllable::Doubled(index) => 0 <= index < ROMAJI_TABLE_LENGTH && doubles(romaji_at(index)[0]),
        Syllable::Tch(index) => 0 <= index < ROMAJI_TABLE_LENGTH && romaji_at(index).len() >= 2
            && romaji_at(index)[0] == 'c' && romaji_at(index)[1] == 'h',
        Syllable::SingleN(index) => 0 <= index < ROMAJI_TABLE_LENGTH && doubles(
            romaji_at(index)[0],
        ) && romaji_at(index)[0] != 'y',
        Syllable::DoubleN(index) => 0 <= index < ROMAJI_TABLE_LENGTH && romaji_at(index) != seq!['n'],
        Syllable::ApostropheN => true,
    }
}

/// The keys of a part of a word.
pub open spec fn syllable_keys(syllable: Syllable) -> Seq<char> {
    match syllable {
        Syllable::Entry(index) => romaji_at(index),
        Syllable::Doubled(index) => seq![romaji_at(index)[0]] + romaji_at(index),
        Syllable::Tch(index) => seq!['t'] + romaji_at(index),
        Syllable::SingleN(index) => seq!['n'] + romaji_at(index),
        Syllable::DoubleN(index) => seq!['n', 'n'] + romaji_at(index),
        Syllable::ApostropheN => seq!['n', '\''],
    }
}

/// What a part of a word stands for.
pub open spec fn syllable_kana(syllable: Syllable) -> Seq<char> {
    match syllable {
        Syllable::Entry(index) => kana_at(index),
        Syllable::Doubled(index) => seq!['っ'] + kana_at(index),
        Syllable::Tch(index) => seq!['っ'] + kana_at(index),
        Syllable::SingleN(index) => seq!['ん'] + kana_at(index),
        Syllable::DoubleN(index) => seq!['ん'] + kana_at(index),
        Syllable::ApostropheN => seq!['ん'],
    }
}

proof fn a_consonant_waits(key: char)
    requires
        'a' <= key <= 'z',
        !vowel(key),
    ensures
        settle(seq![key], false) == (Seq::<char>::empty(), seq![key]),
{
    consonants_begin_entries(key);
    if spelling(seq![key]) is Some {
        only_n_is_an_entry_and_a_start(seq![key]);
    }
    let place = choose|i: int|
        0 <= i < ROMAJI_TABLE_LENGTH && seq![key].is_prefix_of(#[trigger] romaji_at(i))
            && romaji_at(i).len() > 1;
    assert(starts_entry(seq![key]));
}

/// A prefix that is committed while the first keys of an entry stay pending stands before the kana
/// of the entry.
proof fn a_text_before_an_entry(index: int, prefix: Seq<char>, text: Seq<char>, count: int)
    requires
        0 <= index < ROMAJI_TABLE_LENGTH,
        romaji_at(index) != seq!['n'],
        0 <= count < romaji_at(index).len(),
        typed(prefix + romaji_at(index).take(count)) == (text, romaji_at(index).take(count)),
    ensures
        typed(prefix + romaji_at(index)) == (text + kana_at(index), Seq::<char>::empty()),
{
    let romaji = romaji_at(index);
    the_rest_of_an_entry_is_committed(index, count);
    typing_goes_on_behind_pending_keys(prefix + romaji.take(count), romaji.skip(count));
    assert((prefix + romaji.take(count)) + romaji.skip(count) =~= prefix + romaji);
}

proof fn an_entry_begins_with_its_first_key(index: int)
    requires
        0 <= index < ROMAJI_TABLE_LENGTH,
        doubles(romaji_at(index)[0]),
    ensures
        romaji_at(index).len() > 1,
        romaji_at(index) != seq!['n'],
        romaji_at(index).take(1) == seq![romaji_at(index)[0]],
        !vowel(romaji_at(index)[0]),
{
    let romaji = romaji_at(index);
    entries_are_plain_and_never_empty();
    assert(is_built_of_consonants_and_a_vowel(ROMAJI_TABLE@[index].0@));
    assert(seq!['n'][0] == 'n');
    if romaji.len() == 1 {
        assert(romaji.last() == romaji[0]);
    }
    assert(romaji.take(1) =~= seq![romaji[0]]);
}

proof fn a_doubled_entry(index: int)
    requires
        is_syllable(Syllable::Doubled(index)),
    ensures
        typed(syllable_keys(Syllable::Doubled(index))) == (
            syllable_kana(Syllable::Doubled(index)),
            Seq::<char>::empty(),
        ),
{
    let romaji = romaji_at(index);
    let key = romaji[0];
    let nothing = Seq::<char>::empty();
    an_entry_begins_with_its_first_key(index);
    a_consonant_waits(key);
    typing_one_key(nothing, key);
    typing_one_key(seq![key], key);
    typing_goes_on_behind_pending_keys(seq![key], seq![key]);
    let both = seq![key].push(key);
    assert(both =~= seq![key, key]);
    assert(step(both, false) == Step::Commit { kana: seq!['っ'], consumed: 1 });
    assert(both.skip(1) =~= seq![key]);
    assert(seq!['っ'] + nothing =~= seq!['っ']);
    assert(nothing + seq!['っ'] =~= seq!['っ']);
    assert(seq![key] + romaji.take(1) =~= seq![key] + seq![key]);
    a_text_before_an_entry(index, seq![key], seq!['っ'], 1);
}

proof fn an_entry_behind_tch(index: int)
    requires
        is_syllable(Syllable::Tch(index)),
    ensures
        typed(syllable_keys(Syllable::Tch(index))) == (
            syllable_kana(Syllable::Tch(index)),
            Seq::<char>::empty(),
        ),
{
    let romaji = romaji_at(index);
    let nothing = Seq::<char>::empty();
    entries_are_plain_and_never_empty();
    assert(is_built_of_consonants_and_a_vowel(ROMAJI_TABLE@[index].0@));
    an_entry_begins_with_its_first_key(index);
    if romaji.len() == 2 {
        assert(romaji.last() == 'h');
    }
    a_consonant_waits('t');
    typing_one_key(nothing, 't');
    typing_one_key(seq!['t'], 'c');
    let two = seq!['t'].push('c');
    assert(two =~= seq!['t', 'c']);
    assert(settle(two, false) == (nothing, two));
    typing_goes_on_behind_pending_keys(seq!['t'], seq!['c']);
    assert(seq!['t'] + seq!['c'] =~= two);
    assert(nothing + nothing =~= nothing);
    typing_one_key(two, 'h');
    typing_goes_on_behind_pending_keys(two, seq!['h']);
    let three = two.push('h');
    assert(three =~= two + seq!['h']);
    assert(step(three, false) == Step::Commit { kana: seq!['っ'], consumed: 1 });
    let rest = romaji.take(2);
    assert(three.skip(1) =~= rest);
    the_start_of_an_entry_waits(index, 2);
    assert(settle(rest, false) == (nothing, rest));
    assert(seq!['っ'] + nothing =~= seq!['っ']);
    assert(nothing + seq!['っ'] =~= seq!['っ']);
    assert(seq!['t'] + rest =~= three);
    a_text_before_an_entry(index, seq!['t'], seq!['っ'], 2);
}

proof fn an_entry_behind_n(index: int)
    requires
        is_syllable(Syllable::SingleN(index)),
    ensures
        typed(syllable_keys(Syllable::SingleN(index))) == (
            syllable_kana(Syllable::SingleN(index)),
            Seq::<char>::empty(),
        ),
{
    let romaji = romaji_at(index);
    let key = romaji[0];
    let nothing = Seq::<char>::empty();
    an_entry_begins_with_its_first_key(index);
    a_consonant_waits('n');
    a_consonant_waits(key);
    typing_one_key(nothing, 'n');
    typing_one_key(seq!['n'], key);
    typing_goes_on_behind_pending_keys(seq!['n'], seq![key]);
    let both = seq!['n'].push(key);
    assert(step(both, false) == Step::Commit { kana: seq!['ん'], consumed: 1 });
    assert(both.skip(1) =~= seq![key]);
    assert(seq!['ん'] + nothing =~= seq!['ん']);
    assert(nothing + seq!['ん'] =~= seq!['ん']);
    a_text_before_an_entry(index, seq!['n'], seq!['ん'], 1);
}

proof fn two_n_wait()
    ensures
        typed(seq!['n', 'n']) == (Seq::<char>::empty(), seq!['n', 'n']),
{
    let nothing = Seq::<char>::empty();
    a_consonant_waits('n');
    typing_one_key(nothing, 'n');
    typing_one_key(seq!['n'], 'n');
    typing_goes_on_behind_pending_keys(seq!['n'], seq!['n']);
    let both = seq!['n'].push('n');
    assert(both =~= seq!['n', 'n']);
    assert(settle(both, false) == (nothing, both));
    assert(seq!['n'] + seq!['n'] =~= both);
    assert(nothing + nothing =~= nothing);
}

proof fn an_entry_behind_two_n(index: int)
    requires
        is_syllable(Syllable::DoubleN(index)),
    ensures
        typed(syllable_keys(Syllable::DoubleN(index))) == (
            syllable_kana(Syllable::DoubleN(index)),
            Seq::<char>::empty(),
        ),
{
    let romaji = romaji_at(index);
    let nothing = Seq::<char>::empty();
    let two = seq!['n', 'n'];
    entries_are_plain_and_never_empty();
    assert(is_plain_spelling(ROMAJI_TABLE@[index].0@));
    let key = romaji[0];
    two_n_wait();
    typing_one_key(nothing, key);
    typing_one_key(two, key);
    let three = two.push(key);
    assert(step(three, false) == Step::Commit { kana: seq!['ん'], consumed: 2 });
    assert(three.skip(2) =~= seq![key]);
    typing_goes_on_behind_pending_keys(two, seq![key]);
    let (text, rest) = settle(seq![key], false);
    assert(nothing + (seq!['ん'] + text) =~= seq!['ん'] + text);
    assert(typed(two + seq![key]) == (seq!['ん'] + text, rest));
    assert(romaji.take(1) =~= seq![key]);
    if romaji.len() == 1 {
        an_entry_is_committed_at_its_last_key(index);
        assert(romaji =~= seq![key]);
    } else {
        starts_of_an_entry_stay_pending(index, 1);
        assert(seq!['ん'] + nothing =~= seq!['ん']);
        a_text_before_an_entry(index, two, seq!['ん'], 1);
    }
}

proof fn n_with_an_apostrophe()
    ensures
        typed(seq!['n', '\'']) == (seq!['ん'], Seq::<char>::empty()),
{
    let nothing = Seq::<char>::empty();
    a_consonant_waits('n');
    typing_one_key(nothing, 'n');
    typing_one_key(seq!['n'], '\'');
    typing_goes_on_behind_pending_keys(seq!['n'], seq!['\'']);
    let both = seq!['n'].push('\'');
    assert(both =~= seq!['n', '\'']);
    assert(seq!['n'] + seq!['\''] =~= both);
    assert(step(both, false) == Step::Commit { kana: seq!['ん'], consumed: 2 });
    assert(both.skip(2) =~= nothing);
    assert(settle(nothing, false) == (nothing, nothing));
    assert(seq!['ん'] + nothing =~= seq!['ん']);
    assert(nothing + seq!['ん'] =~= seq!['ん']);
}

/// A part of a word, typed key by key, gives its kana as soon as its last key is typed: an entry
/// gives its own, a doubled consonant or the `t` of `tch` puts っ before it, and an `n` before a
/// consonant, two `n`, and `n'` give ん.
pub proof fn a_typed_syllable_gives_its_kana(syllable: Syllable)
    requires
        is_syllable(syllable),
    ensures
        typed(syllable_keys(syllable)) == (syllable_kana(syllable), Seq::<char>::empty()),
{
    match syllable {
        Syllable::Entry(index) => an_entry_is_committed_at_its_last_key(index),
        Syllable::Doubled(index) => a_doubled_entry(index),
        Syllable::Tch(index) => an_entry_behind_tch(index),
        Syllable::SingleN(index) => an_entry_behind_n(index),
        Syllable::DoubleN(index) => an_entry_behind_two_n(index),
        Syllable::ApostropheN => n_with_an_apostrophe(),
    }
}

/// The keys of a word.
pub open spec fn word_keys(syllables: Seq<Syllable>) -> Seq<char>
    decreases syllables.len(),
{
    if syllables.len() == 0 {
        Seq::empty()
    } else {
        word_keys(syllables.drop_last()) + syllable_keys(syllables.last())
    }
}

/// The kana of a word.
pub open spec fn word_kana(syllables: Seq<Syllable>) -> Seq<char>
    decreases syllables.len(),
{
    if syllables.len() == 0 {
        Seq::empty()
    } else {
        word_kana(syllables.drop_last()) + syllable_kana(syllables.last())
    }
}

/// A word, typed key by key, gives the kana of its parts one behind the other, and nothing is left
/// to flush.
pub proof fn a_typed_word_gives_its_kana(syllables: Seq<Syllable>)
    requires
        forall|i: int| 0 <= i < syllables.len() ==> is_syllable(#[trigger] syllables[i]),
    ensures
        typed(word_keys(syllables)) == (word_kana(syllables), Seq::<char>::empty()),
        flushed(typed(word_keys(syllables)).1) == Seq::<char>::empty(),
    decreases syllables.len(),
{
    let nothing = Seq::<char>::empty();
    assert(settle(nothing, true) == (nothing, nothing));
    assert(flushed(nothing) =~= nothing);
    if syllables.len() > 0 {
        let before = syllables.drop_last();
        let last = syllables.last();
        a_typed_word_gives_its_kana(before);
        a_typed_syllable_gives_its_kana(last);
        typing_goes_on_behind_pending_keys(word_keys(before), syllable_keys(last));
        typing_behind_nothing(syllable_keys(last));
    }
}

/// For every consonant other than `n` and every entry that begins with it: the consonant and the
/// entry, typed key by key and flushed, give っ and the kana of the entry.
pub proof fn a_doubled_consonant_gives_a_small_tsu(consonant: char, index: int)
    requires
        'a' <= consonant <= 'z',
        consonant != 'a' && consonant != 'i' && consonant != 'u' && consonant != 'e' && consonant
            != 'o' && consonant != 'n',
        0 <= index < ROMAJI_TABLE_LENGTH,
        romaji_at(index)[0] == consonant,
    ensures
        ({
            let (text, rest) = typed(seq![consonant] + romaji_at(index));
            text + flushed(rest) == seq!['っ'] + kana_at(index)
        }),
{
    let nothing = Seq::<char>::empty();
    a_doubled_entry(index);
    assert(settle(nothing, true) == (nothing, nothing));
    assert(flushed(nothing) =~= nothing);
    let (text, rest) = typed(seq![consonant] + romaji_at(index));
    assert(text + flushed(rest) =~= text);
}

/// After a vowel nothing stays pending, whatever was typed before it.
pub proof fn a_vowel_leaves_nothing_pending(keys: Seq<char>, key: char)
    requires
        forall|k: int| 0 <= k < keys.len() ==> is_spelling_key(#[trigger] keys[k]),
        key == 'a' || key == 'i' || key == 'u' || key == 'e' || key == 'o',
    ensures
        settle(keys.push(key), false).1 == Seq::<char>::empty(),
{
    let all = keys.push(key);
    let kept = settle(all, false).1;
    assert forall|k: int| 0 <= k < all.len() implies is_spelling_key(#[trigger] all[k]) by {
        if k < keys.len() {
            assert(all[k] == keys[k]);
        }
    }
    settled_keys_are_open(all);
    pending_keys_are_the_last_typed(all, false);
    if kept.len() > 0 {
        assert(kept[kept.len() - 1] == key);
        if starts_longer_entry(kept) {
            let i = choose|i: int|
                0 <= i < ROMAJI_TABLE_LENGTH && kept.is_prefix_of(#[trigger] romaji_at(i))
                    && romaji_at(i).len() > kept.len();
            entries_are_plain_and_never_empty();
            assert(is_built_of_consonants_and_a_vowel(ROMAJI_TABLE@[i].0@));
            assert(romaji_at(i).subrange(0, kept.len() as int)[kept.len() - 1] == romaji_at(
                i,
            )[kept.len() - 1]);
            assert(!vowel(ROMAJI_TABLE@[i].0@[kept.len() - 1]));
        }
    }
    assert(kept =~= Seq::<char>::empty());
}

/// Two keys that no entry begins with do not wait for a third: the first comes out as it was typed,
/// and the second goes on. Left out are the keys that have a rule of their own: `n`, a doubled
/// consonant and `tc`.
pub proof fn unusable_keys_come_out_as_typed(first: char, second: char)
    requires
        is_spelling_key(first) && is_spelling_key(second),
        !vowel(first) && !vowel(second) && second != '\'',
        first != 'n' && first != second,
        !(first == 't' && second == 'c'),
        forall|i: int|
            0 <= i < ROMAJI_TABLE_LENGTH && (#[trigger] romaji_at(i)).len() >= 2 ==> !(romaji_at(
                i,
            )[0] == first && romaji_at(i)[1] == second),
    ensures
        typed(seq![first, second]) == (seq![first], seq![second]),
{
    let nothing = Seq::<char>::empty();
    let keys = seq![first, second];
    typing_one_key(nothing, first);
    if first == '\'' {
        only_n_flushes_to_kana(seq!['\'']);
        if starts_longer_entry(seq!['\'']) && spelling(seq!['\'']) is Some {
            only_n_is_an_entry_and_a_start(seq!['\'']);
        }
        if spelling(seq!['\'']) is Some {
            spelling_comes_from_the_table(seq!['\''], 0);
            let j = choose|j: int|
                0 <= j < ROMAJI_TABLE_LENGTH && #[trigger] romaji_at(j) == seq!['\''] && kana_at(j)
                    == spelling(seq!['\''])->0;
            entries_are_plain_and_never_empty();
            assert(is_built_of_consonants_and_a_vowel(ROMAJI_TABLE@[j].0@));
            assert(seq!['n'][0] == 'n');
        }
        assert(settle(seq![first], false) == (nothing, seq![first]));
    } else {
        a_consonant_waits(first);
    }
    a_consonant_waits(second);
    typing_one_key(seq![first], second);
    typing_goes_on_behind_pending_keys(seq![first], seq![second]);
    let both = seq![first].push(second);
    assert(both =~= keys);
    assert(seq![first] + seq![second] =~= keys);
    assert(!starts_entry(keys)) by {
        if starts_entry(keys) {
            let i = choose|i: int|
                0 <= i < ROMAJI_TABLE_LENGTH && keys.is_prefix_of(#[trigger] romaji_at(i));
            assert(romaji_at(i).subrange(0, 2)[0] == first && romaji_at(i).subrange(0, 2)[1]
                == second);
        }
    }
    if spelling(keys) is Some {
        spelling_comes_from_the_table(keys, 0);
        let j = choose|j: int|
            0 <= j < ROMAJI_TABLE_LENGTH && #[trigger] romaji_at(j) == keys && kana_at(j)
                == spelling(keys)->0;
        assert(romaji_at(j).len() >= 2);
    }
    assert(keys[0] != keys[1]);
    assert(keys != seq!['t', 'c']) by {
        assert(seq!['t', 'c'][0] == 't' && seq!['t', 'c'][1] == 'c');
    }
    assert(step(keys, false) == Step::Commit { kana: seq![first], consumed: 1 });
    assert(keys.skip(1) =~= seq![second]);
    assert(seq![first] + nothing =~= seq![first]);
    assert(nothing + seq![first] =~= seq![first]);
}

/// A capital letter is typed as its small letter, 32 codes behind it; every other key as it is.
pub proof fn capitals_are_typed_as_small_letters(character: char)
    requires
        is_romaji_key(character),
    ensures
        'A' <= character <= 'Z' ==> lower(character) as u32 == character as u32 + 32,
        !('A' <= character <= 'Z') ==> lower(character) == character,
        'a' <= lower(character) <= 'z' || lower(character) == '\'',
{
}

proof fn every_entry_has_a_spelling(index: int, start: int)
    requires
        0 <= start <= index < ROMAJI_TABLE_LENGTH,
    ensures
        spelling_from(romaji_at(index), start) is Some,
    decreases index - start,
{
    if start < index && romaji_at(start) != romaji_at(index) {
        every_entry_has_a_spelling(index, start + 1);
    }
}

/// The kana of a spelling is that of an entry with exactly that spelling.
pub proof fn spelling_comes_from_the_table(romaji: Seq<char>, index: int)
    requires
        0 <= index,
        spelling_from(romaji, index) is Some,
    ensures
        exists|i: int|
            index <= i < ROMAJI_TABLE_LENGTH && #[trigger] romaji_at(i) == romaji && kana_at(i)
                == spelling_from(romaji, index)->0,
    decreases ROMAJI_TABLE_LENGTH - index,
{
    if romaji_at(index) != romaji {
        spelling_comes_from_the_table(romaji, index + 1);
    }
}

// ---------------------------------------------------------------------------
// The composer
// ---------------------------------------------------------------------------

/// Composes hiragana one key at a time.
#[derive(Clone, Debug, PartialEq, Eq)]
pub struct RomajiComposer {
    pending: String,
}

impl View for RomajiComposer {
    type V = Seq<char>;

    /// The keys that are not committed yet.
    closed spec fn view(&self) -> Seq<char> {
        self.pending@
    }
}

impl Default for RomajiComposer {
    fn default() -> (result: Self)
        ensures
            result@ == Seq::<char>::empty(),
    {
        RomajiComposer { pending: String::new() }
    }
}

impl RomajiComposer {
    #[must_use]
    pub fn new() -> (result: Self)
        ensures
            result@ == Seq::<char>::empty(),
    {
        RomajiComposer { pending: String::new() }
    }

    /// Adds one ASCII letter or apostrophe and returns the hiragana that became unambiguous.
    /// Any other character is an error and changes nothing.
    pub fn push(&mut self, character: char) -> (result: Result<String, InvalidRomaji>)
        ensures
            result is Ok <==> is_romaji_key(character),
            result matches Ok(text) ==> (text@, final(self)@) == settle(
                old(self)@.push(lower(character)),
                false,
            ),
            result is Ok ==> settle(final(self)@, false) == (Seq::<char>::empty(), final(self)@),
            result matches Err(error) ==> error == InvalidRomaji(character) && final(self)@
                == old(self)@,
    {
        if !ascii_letter(character) && character != '\'' {
            return Err(InvalidRomaji(character));
        }
        let key: char = if 'A' <= character && character <= 'Z' {
            (character as u32 + 32) as u8 as char
        } else {
            character
        };
        self.pending.push(key);
        Ok(self.resolve(false))
    }

    /// The keys that are not committed yet.
    #[must_use]
    pub fn pending(&self) -> (result: &str)
        ensures
            result@ == self@,
    {
        self.pending.as_str()
    }

    /// The text to show while the romaji is ambiguous. A single `n` stays literal because it
    /// can still become な; two of them are one ん that is still edited as two keys.
    #[must_use]
    pub fn preview(&self) -> (result: &str)
        ensures
            result@ == (if self@ == seq!['n', 'n'] {
                seq!['ん']
            } else {
                self@
            }),
    {
        proof {
            reveal_strlit("nn");
            reveal_strlit("ん");
        }
        assert("nn"@ =~= seq!['n', 'n']);
        assert("ん"@ =~= seq!['ん']);
        if same_text(self.pending.as_str(), "nn") {
            "ん"
        } else {
            self.pending.as_str()
        }
    }

    /// Removes the last pending key; `false` if there is none.
    pub fn backspace(&mut self) -> (result: bool)
        ensures
            result == (old(self)@.len() > 0),
            final(self)@ == (if old(self)@.len() > 0 {
                old(self)@.drop_last()
            } else {
                old(self)@
            }),
    {
        let letters: Vec<char> = characters(self.pending.as_str());
        if letters.len() == 0 {
            return false;
        }
        self.pending = text_between(letters.as_slice(), 0, letters.len() - 1);
        assert(self@ =~= old(self)@.drop_last());
        true
    }

    /// Commits everything: resolves a trailing `n` and returns other incomplete input as it
    /// was typed.
    pub fn flush(&mut self) -> (result: String)
        ensures
            result@ == flushed(old(self)@),
            final(self)@ == Seq::<char>::empty(),
    {
        let mut output: String = self.resolve(true);
        output.append(self.pending.as_str());
        self.pending = String::new();
        output
    }

    /// Drops the pending keys.
    pub fn clear(&mut self)
        ensures
            final(self)@ == Seq::<char>::empty(),
    {
        self.pending = String::new();
    }

    /// Commits what the pending keys settle and keeps the rest.
    fn resolve(&mut self, flush: bool) -> (result: String)
        ensures
            (result@, final(self)@) == settle(old(self)@, flush),
            settle(final(self)@, flush) == (Seq::<char>::empty(), final(self)@),
    {
        let ghost all = self@;
        let mut output: String = String::new();
        let mut keys: Vec<char> = characters(self.pending.as_str());
        assert(output@ + settle(keys@, flush).0 =~= settle(all, flush).0);
        loop
            invariant
                output@ + settle(keys@, flush).0 == settle(all, flush).0,
                settle(keys@, flush).1 == settle(all, flush).1,
            ensures
                step(keys@, flush) is Wait,
                output@ + settle(keys@, flush).0 == settle(all, flush).0,
                settle(keys@, flush).1 == settle(all, flush).1,
            decreases keys@.len(),
        {
            let count: usize = keys.len();
            if count == 0 {
                break;
            }
            if count == 2 && keys[0] == 't' && keys[1] == 'c' {
                assert(keys@ =~= seq!['t', 'c']);
                break;
            }
            let mut consumed: usize = 1;
            let mut kana: String = String::new();
            if count >= 3 && keys[0] == 't' && keys[1] == 'c' && keys[2] == 'h' {
                kana.push('っ');
            } else if count >= 2 && keys[0] == keys[1] && is_consonant(keys[0]) && keys[0] != 'n' {
                kana.push('っ');
            } else if count >= 2 && keys[0] == 'n' && keys[1] == '\'' {
                kana.push('ん');
                consumed = 2;
            } else if count >= 2 && keys[0] == 'n' && keys[1] == 'n' {
                if count == 2 && !flush {
                    break;
                }
                kana.push('ん');
                consumed = 2;
            } else if count >= 2 && keys[0] == 'n' && !is_vowel(keys[1]) && keys[1] != 'y' {
                kana.push('ん');
            } else {
                let pending: String = text_of(keys.as_slice());
                let entries: Matches = matches_of(pending.as_str());
                if entries.exact.is_some() && (flush || !entries.longer) {
                    kana = entries.exact.unwrap().to_owned();
                    consumed = count;
                } else if entries.any || count == 1 {
                    break;
                } else {
                    kana.push(keys[0]);
                }
            }
            let ghost before = keys@;
            assert(step(before, flush) is Commit);
            assert(step(before, flush)->kana =~= kana@);
            assert(step(before, flush)->consumed == consumed);
            let rest: String = text_between(keys.as_slice(), consumed, count);
            let ghost written = output@;
            output.append(kana.as_str());
            keys = characters(rest.as_str());
            assert(keys@ =~= before.skip(consumed as int));
            assert(output@ + settle(keys@, flush).0 =~= written + settle(before, flush).0);
        }
        assert(settle(keys@, flush) == (Seq::<char>::empty(), keys@));
        assert(output@ =~= output@ + settle(keys@, flush).0);
        self.pending = text_of(keys.as_slice());
        output
    }
}

fn is_vowel(character: char) -> (result: bool)
    ensures
        result == vowel(character),
{
    character == 'a' || character == 'i' || character == 'u' || character == 'e' || character
        == 'o'
}

fn is_consonant(character: char) -> (result: bool)
    ensures
        result == consonant(character),
{
    ascii_letter(character) && !is_vowel(character)
}

/// Entries of the table rank by their spelling.
impl Ranked for (&'static str, &'static str) {
    open spec fn ranks_before(&self, other: &Self) -> bool {
        text_before(self.0@, other.0@)
    }

    proof fn ranking_laws(first: &Self, second: &Self, third: &Self) {
        if text_before(first.0@, second.0@) {
            text_order_is_asymmetric(first.0@, second.0@);
        }
        text_order_is_total(first.0@, second.0@);
        text_order_is_total(second.0@, third.0@);
        if text_before(first.0@, third.0@) && text_before(second.0@, first.0@) {
            text_order_is_transitive(second.0@, first.0@, third.0@);
        }
    }

    fn comes_before(&self, other: &Self) -> (result: bool) {
        place_text(self.0, other.0) == Placement::Before
    }
}

/// Whether the list holds the entry at `index`.
pub open spec fn lists_entry(list: Seq<(&'static str, &'static str)>, index: int) -> bool {
    exists|k: int|
        0 <= k < list.len() && (#[trigger] list[k]).0@ == romaji_at(index) && list[k].1@ == kana_at(
            index,
        )
}

/// Whether the entry is one of the table that starts with `input`.
pub open spec fn is_match(input: Seq<char>, entry: (&'static str, &'static str)) -> bool {
    exists|i: int|
        0 <= i < ROMAJI_TABLE_LENGTH && input.is_prefix_of(#[trigger] romaji_at(i)) && entry
            == ROMAJI_TABLE@[i]
}

/// The entries that start with `input`, in the order of their spellings.
pub fn matching_entries(input: &str) -> (result: Vec<(&'static str, &'static str)>)
    ensures
        forall|k: int| 0 <= k < result@.len() ==> is_match(input@, #[trigger] result@[k]),
        forall|i: int|
            0 <= i < ROMAJI_TABLE_LENGTH && input@.is_prefix_of(#[trigger] romaji_at(i))
                ==> lists_entry(result@, i),
        forall|j: int, k: int|
            0 <= j < k < result@.len() ==> text_before(
                (#[trigger] result@[j]).0@,
                (#[trigger] result@[k]).0@,
            ),
{
    let mut found: Vec<(&'static str, &'static str)> = Vec::new();
    for index in 0..ROMAJI_TABLE_LENGTH
        invariant
            forall|k: int| 0 <= k < found@.len() ==> is_match(input@, #[trigger] found@[k]),
            forall|k: int|
                0 <= k < found@.len() ==> exists|i: int|
                    0 <= i < index && #[trigger] ROMAJI_TABLE@[i] == #[trigger] found@[k],
            found@.no_duplicates(),
            forall|i: int|
                0 <= i < index && input@.is_prefix_of(#[trigger] romaji_at(i)) ==> found@.contains(
                    ROMAJI_TABLE@[i],
                ),
    {
        let entry: (&'static str, &'static str) = ROMAJI_TABLE[index];
        let ghost before = found@;
        assert(entry.0@ == romaji_at(index as int));
        if begins_with(entry.0, input) {
            proof {
                if before.contains(entry) {
                    let k = choose|k: int| 0 <= k < before.len() && before[k] == entry;
                    let i = choose|i: int|
                        0 <= i < index && #[trigger] ROMAJI_TABLE@[i] == before[k];
                    spellings_differ(i, index as int);
                }
            }
            found.push(entry);
            assert(is_match(input@, entry));
            assert forall|i: int|
                0 <= i < index + 1 && input@.is_prefix_of(
                    #[trigger] romaji_at(i),
                ) implies found@.contains(ROMAJI_TABLE@[i]) by {
                if i < index {
                    let k = choose|k: int| 0 <= k < before.len() && before[k] == ROMAJI_TABLE@[i];
                    assert(found@[k] == ROMAJI_TABLE@[i]);
                } else {
                    assert(found@[before.len() as int] == entry);
                }
            }
        }
    }
    let ghost unsorted = found@;
    let result: Vec<(&'static str, &'static str)> = sorted(found);
    proof {
        broadcast use group_to_multiset_ensures;

        unsorted.lemma_multiset_has_no_duplicates();
        result@.lemma_multiset_has_no_duplicates_conv();
        assert forall|k: int| 0 <= k < result@.len() implies is_match(
            input@,
            #[trigger] result@[k],
        ) by {
            let entry = result@[k];
            assert(result@.contains(entry));
            assert(result@.to_multiset().count(entry) > 0);
            assert(unsorted.contains(entry));
        }
        assert forall|i: int|
            0 <= i < ROMAJI_TABLE_LENGTH && input@.is_prefix_of(
                #[trigger] romaji_at(i),
            ) implies lists_entry(result@, i) by {
            let entry = ROMAJI_TABLE@[i];
            assert(unsorted.contains(entry));
            assert(unsorted.to_multiset().count(entry) > 0);
            assert(result@.contains(entry));
            let k = choose|k: int| 0 <= k < result@.len() && result@[k] == entry;
            assert(result@[k].0@ == romaji_at(i));
        }
        assert forall|j: int, k: int| 0 <= j < k < result@.len() implies text_before(
            (#[trigger] result@[j]).0@,
            (#[trigger] result@[k]).0@,
        ) by {
            let left = result@[j];
            let right = result@[k];
            assert(!right.ranks_before(&left));
            assert(is_match(input@, left) && is_match(input@, right));
            let x = choose|i: int|
                0 <= i < ROMAJI_TABLE_LENGTH && input@.is_prefix_of(#[trigger] romaji_at(i)) && left
                    == ROMAJI_TABLE@[i];
            let y = choose|i: int|
                0 <= i < ROMAJI_TABLE_LENGTH && input@.is_prefix_of(#[trigger] romaji_at(i)) && right
                    == ROMAJI_TABLE@[i];
            if left.0@ == right.0@ {
                spellings_differ(x, y);
            }
            text_order_is_total(left.0@, right.0@);
        }
    }
    result
}

/// What the table holds for some pending keys: the kana that they spell exactly, whether some
/// entry starts with them, and whether a longer one does.
struct Matches {
    exact: Option<&'static str>,
    any: bool,
    longer: bool,
}

fn matches_of(input: &str) -> (result: Matches)
    ensures
        result.exact is Some <==> spelling(input@) is Some,
        result.exact matches Some(kana) ==> spelling(input@) == Some(kana@),
        result.any == starts_entry(input@),
        result.longer == starts_longer_entry(input@),
{
    let entries: Vec<(&'static str, &'static str)> = matching_entries(input);
    let length: usize = characters(input).len();
    let mut exact: Option<&'static str> = None;
    let mut longer: bool = false;
    for index in 0..entries.len()
        invariant
            length == input@.len(),
            forall|k: int| 0 <= k < entries@.len() ==> is_match(input@, #[trigger] entries@[k]),
            exact is None ==> forall|k: int|
                0 <= k < index ==> (#[trigger] entries@[k]).0@ != input@,
            exact matches Some(kana) ==> spelling(input@) == Some(kana@),
            longer == exists|k: int|
                0 <= k < index && (#[trigger] entries@[k]).0@.len() > input@.len(),
    {
        let entry: (&'static str, &'static str) = entries[index];
        assert(is_match(input@, entries@[index as int]));
        if exact.is_none() && same_text(entry.0, input) {
            proof {
                let i = choose|i: int|
                    0 <= i < ROMAJI_TABLE_LENGTH && input@.is_prefix_of(#[trigger] romaji_at(i))
                        && entry == ROMAJI_TABLE@[i];
                an_entry_is_found_by_its_spelling(i);
            }
            exact = Some(entry.1);
        }
        if characters(entry.0).len() > length {
            longer = true;
        }
    }
    proof {
        if spelling(input@) is Some {
            spelling_comes_from_the_table(input@, 0);
            let i = choose|i: int|
                0 <= i < ROMAJI_TABLE_LENGTH && #[trigger] romaji_at(i) == input@ && kana_at(i)
                    == spelling(input@)->0;
            assert(input@.is_prefix_of(romaji_at(i)));
            assert(lists_entry(entries@, i));
        }
        if starts_entry(input@) {
            let i = choose|i: int|
                0 <= i < ROMAJI_TABLE_LENGTH && input@.is_prefix_of(#[trigger] romaji_at(i));
            assert(lists_entry(entries@, i));
        }
        if entries@.len() > 0 {
            assert(is_match(input@, entries@[0]));
        }
        if starts_longer_entry(input@) {
            let i = choose|i: int|
                0 <= i < ROMAJI_TABLE_LENGTH && input@.is_prefix_of(#[trigger] romaji_at(i))
                    && romaji_at(i).len() > input@.len();
            assert(lists_entry(entries@, i));
        }
        if longer {
            let k = choose|k: int|
                0 <= k < entries@.len() && (#[trigger] entries@[k]).0@.len() > input@.len();
            assert(is_match(input@, entries@[k]));
        }
    }
    Matches { exact, any: entries.len() > 0, longer }
}

/// Whether the kana is an arrow.
pub open spec fn arrow(kana: Seq<char>) -> bool {
    kana == "←"@ || kana == "↓"@ || kana == "↑"@ || kana == "→"@
}

/// The pairs of kana and romaji of the first `count` entries, without the arrow shortcuts.
pub open spec fn spellings_before(count: int) -> Seq<(Seq<char>, Seq<char>)>
    decreases count,
{
    if count <= 0 {
        Seq::empty()
    } else if arrow(kana_at(count - 1)) {
        spellings_before(count - 1)
    } else {
        spellings_before(count - 1).push((kana_at(count - 1), romaji_at(count - 1)))
    }
}

/// Every pair of kana and romaji of the table, in its order. The arrow shortcuts are left out,
/// so that a transliteration back to romaji only sees kana.
pub fn kana_spellings() -> (result: Vec<(&'static str, &'static str)>)
    ensures
        result@.map_values(|pair: (&'static str, &'static str)| (pair.0@, pair.1@))
            == spellings_before(ROMAJI_TABLE_LENGTH as int),
{
    let ghost views = |pair: (&'static str, &'static str)| (pair.0@, pair.1@);
    let mut result: Vec<(&'static str, &'static str)> = Vec::new();
    assert(result@.map_values(views) =~= spellings_before(0));
    for index in 0..ROMAJI_TABLE_LENGTH
        invariant
            views == (|pair: (&'static str, &'static str)| (pair.0@, pair.1@)),
            result@.map_values(views) == spellings_before(index as int),
    {
        let entry: (&'static str, &'static str) = ROMAJI_TABLE[index];
        let kana: &'static str = entry.1;
        if !same_text(kana, "←") && !same_text(kana, "↓") && !same_text(kana, "↑")
            && !same_text(kana, "→") {
            let ghost before = result@;
            result.push((kana, entry.0));
            assert(result@.map_values(views) =~= before.map_values(views).push(
                views((kana, entry.0)),
            ));
        }
    }
    result
}

/// Whether a text is one of the four arrows.
pub open spec fn is_one_arrow(kana: Seq<char>) -> bool {
    kana.len() == 1 && (kana[0] == '←' || kana[0] == '↓' || kana[0] == '↑' || kana[0] == '→')
}

proof fn arrows_are_single_characters(kana: Seq<char>)
    ensures
        arrow(kana) <==> is_one_arrow(kana),
{
    reveal_strlit("←");
    reveal_strlit("↓");
    reveal_strlit("↑");
    reveal_strlit("→");
    assert("←"@ =~= seq!['←']);
    assert("↓"@ =~= seq!['↓']);
    assert("↑"@ =~= seq!['↑']);
    assert("→"@ =~= seq!['→']);
    if kana.len() == 1 {
        assert(kana =~= seq![kana[0]]);
    }
}

/// Every entry is listed with its kana before its keys, unless it stands for an arrow; nothing else
/// is listed, and no arrow is.
pub proof fn all_kana_are_listed(count: int)
    requires
        0 <= count <= ROMAJI_TABLE_LENGTH,
    ensures
        forall|i: int|
            0 <= i < count && !is_one_arrow(#[trigger] kana_at(i)) ==> spellings_before(
                count,
            ).contains((kana_at(i), romaji_at(i))),
        forall|k: int|
            0 <= k < spellings_before(count).len() ==> {
                let pair = #[trigger] spellings_before(count)[k];
                &&& !is_one_arrow(pair.0)
                &&& exists|i: int|
                    0 <= i < count && #[trigger] kana_at(i) == pair.0 && romaji_at(i) == pair.1
            },
    decreases count,
{
    if count > 0 {
        all_kana_are_listed(count - 1);
        let before = spellings_before(count - 1);
        let after = spellings_before(count);
        arrows_are_single_characters(kana_at(count - 1));
        assert forall|i: int| 0 <= i < count && !is_one_arrow(#[trigger] kana_at(i)) implies after.contains(
            (kana_at(i), romaji_at(i)),
        ) by {
            if i < count - 1 {
                let k = choose|k: int|
                    0 <= k < before.len() && before[k] == (kana_at(i), romaji_at(i));
                assert(after[k] == before[k]);
            } else {
                assert(after[before.len() as int] == (kana_at(i), romaji_at(i)));
            }
        }
        assert forall|k: int| 0 <= k < after.len() implies {
            let pair = #[trigger] after[k];
            &&& !is_one_arrow(pair.0)
            &&& exists|i: int|
                0 <= i < count && #[trigger] kana_at(i) == pair.0 && romaji_at(i) == pair.1
        } by {
            if k < before.len() {
                assert(after[k] == before[k]);
                let i = choose|i: int|
                    0 <= i < count - 1 && #[trigger] kana_at(i) == before[k].0 && romaji_at(i)
                        == before[k].1;
                assert(kana_at(i) == after[k].0);
            } else {
                assert(kana_at(count - 1) == after[k].0);
            }
        }
    }
}

} // verus!
