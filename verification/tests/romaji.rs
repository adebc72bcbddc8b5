//! Composing kana from romaji.

use slime::romaji::{kana_spellings, matching_entries, InvalidRomaji, RomajiComposer};
use slime::romaji_table::ROMAJI_TABLE;

fn compose(input: &str) -> String {
    let mut composer = RomajiComposer::new();
    let mut output = String::new();
    for character in input.chars() {
        output.push_str(&composer.push(character).unwrap());
    }
    output.push_str(&composer.flush());
    output
}

#[test]
fn converts_basic_syllables() {
    assert_eq!(compose("nihongo"), "にほんご");
    assert_eq!(compose("watashi"), "わたし");
}

#[test]
fn converts_contracted_sounds() {
    assert_eq!(compose("kyoushitsu"), "きょうしつ");
    assert_eq!(compose("ryokou"), "りょこう");
}

#[test]
fn converts_double_consonant() {
    assert_eq!(compose("kitte"), "きって");
    assert_eq!(compose("gakkou"), "がっこう");
    assert_eq!(compose("matcha"), "まっちゃ");
}

#[test]
fn converts_foreign_sounds() {
    assert_eq!(compose("pafo"), "ぱふぉ");
    assert_eq!(compose("vaio"), "ゔぁいお");
    assert_eq!(compose("thi"), "てぃ");
    assert_eq!(compose("dhu"), "でゅ");
    assert_eq!(compose("tsa"), "つぁ");
    assert_eq!(compose("kwa"), "くぁ");
    assert_eq!(compose("she"), "しぇ");
}

#[test]
fn converts_alternative_spellings_and_small_kana() {
    assert_eq!(compose("jye"), "じぇ");
    assert_eq!(compose("t'i"), "てぃ");
    assert_eq!(compose("xtsu"), "っ");
    assert_eq!(compose("xka"), "ヵ");
    assert_eq!(compose("wye"), "ゑ");
}

#[test]
fn converts_arrow_shortcuts() {
    assert_eq!(compose("zh"), "←");
    assert_eq!(compose("zj"), "↓");
    assert_eq!(compose("zk"), "↑");
    assert_eq!(compose("zl"), "→");
    assert_eq!(compose("zm"), "→");
    assert_eq!(compose("zhzm"), "←→");
}

#[test]
fn handles_syllabic_n() {
    assert_eq!(compose("kanpai"), "かんぱい");
    assert_eq!(compose("kin'youbi"), "きんようび");
    assert_eq!(compose("hon"), "ほん");
    assert_eq!(compose("honn"), "ほん");
    assert_eq!(compose("sennyou"), "せんよう");
    assert_eq!(compose("sannin"), "さんいん");
    assert_eq!(compose("konnna"), "こんな");
    assert_eq!(compose("kon'na"), "こんな");
    assert_eq!(compose("annnai"), "あんない");
    assert_eq!(compose("minnna"), "みんな");
}

#[test]
fn previews_ambiguous_n_without_committing_it() {
    let mut composer = RomajiComposer::new();

    assert_eq!(composer.push('n').unwrap(), "");
    assert_eq!(composer.preview(), "n");
    assert_eq!(composer.push('n').unwrap(), "");
    assert_eq!(composer.preview(), "ん");

    assert!(composer.backspace());
    assert_eq!(composer.preview(), "n");
}

#[test]
fn retains_ambiguous_suffix_until_resolved() {
    let mut composer = RomajiComposer::new();
    assert_eq!(composer.push('s').unwrap(), "");
    assert_eq!(composer.push('h').unwrap(), "");
    assert_eq!(composer.pending(), "sh");
    assert_eq!(composer.push('i').unwrap(), "し");
    assert_eq!(composer.pending(), "");
}

#[test]
fn backspace_edits_pending_input() {
    let mut composer = RomajiComposer::new();
    composer.push('k').unwrap();
    assert!(composer.backspace());
    assert_eq!(composer.pending(), "");
    assert!(!composer.backspace());
}

#[test]
fn rejects_non_romaji_characters_without_mutation() {
    let mut composer = RomajiComposer::new();
    assert!(composer.push('1').is_err());
    assert_eq!(composer.pending(), "");
}

#[test]
fn every_table_entry_converts() {
    for (romaji, kana) in ROMAJI_TABLE {
        assert_eq!(compose(romaji), kana, "failed to convert {romaji}");
    }
}

#[test]
fn an_invalid_key_is_named() {
    let mut composer = RomajiComposer::new();
    composer.push('k').unwrap();
    assert_eq!(composer.push('漢').unwrap_err(), InvalidRomaji('漢'));
    assert_eq!(
        composer.push('1').unwrap_err().message(),
        "unsupported romaji character: '1'"
    );
    assert_eq!(
        composer.push('\n').unwrap_err().message(),
        "unsupported romaji character: '\\n'"
    );
    assert_eq!(composer.pending(), "k");
    composer.clear();
    assert_eq!(composer.pending(), "");
}

#[test]
fn upper_case_keys_are_lowered() {
    assert_eq!(compose("NIHON"), "にほん");
}

#[test]
fn keys_that_make_no_kana_stay() {
    assert_eq!(compose("q"), "q");
    assert_eq!(compose("ky"), "ky");
}

#[test]
fn spellings_are_plain_syllables() {
    let spellings = kana_spellings();
    assert!(spellings.contains(&("か", "ka")) || spellings.contains(&("ka", "か")));
    assert!(spellings.len() <= ROMAJI_TABLE.len());
    for (first, second) in spellings {
        assert!(ROMAJI_TABLE.contains(&(first, second)) || ROMAJI_TABLE.contains(&(second, first)));
    }
}

#[test]
fn pending_keys_have_few_shapes() {
    let keys: Vec<char> = ('a'..='z').chain(['\'']).collect();
    let mut composer = RomajiComposer::new();
    let mut state: usize = 7;
    for step in 0..4_000 {
        state = (state * 1_103_515_245 + 12_345) % 2_147_483_648;
        match (state >> 16) % 31 {
            27 | 28 => {
                composer.backspace();
            }
            29 => composer.clear(),
            30 => {
                let pending = composer.pending().to_owned();
                let flushed = composer.flush();
                if pending == "n" || pending == "nn" {
                    assert_eq!(flushed, "ん");
                } else {
                    assert_eq!(flushed, pending);
                }
                assert_eq!(composer.flush(), "");
            }
            key => {
                composer.push(keys[key]).unwrap();
            }
        }
        let pending = composer.pending();
        let open = ["", "nn", "tc", "'"].contains(&pending)
            || ROMAJI_TABLE
                .iter()
                .any(|(romaji, _)| romaji.starts_with(pending) && romaji.len() > pending.len());
        assert!(open, "{pending:?} is pending after {step} steps");
    }
}

#[test]
fn flushing_gives_keys_as_they_were_typed() {
    for (keys, flushed) in [("ky", "ky"), ("tc", "tc"), ("'", "'"), ("n", "ん"), ("nn", "ん")] {
        assert_eq!(compose(keys), flushed);
    }
}

#[test]
fn no_spelling_stands_twice() {
    for (index, (romaji, _)) in ROMAJI_TABLE.iter().enumerate() {
        let first = ROMAJI_TABLE.iter().position(|(other, _)| other == romaji);
        assert_eq!(first, Some(index));
    }
}

#[test]
fn matching_entries_stand_in_order() {
    let found = matching_entries("ny");
    assert_eq!(
        found,
        [("nya", "にゃ"), ("nye", "にぇ"), ("nyi", "にぃ"), ("nyo", "にょ"), ("nyu", "にゅ")]
    );
    assert_eq!(matching_entries("ka"), [("ka", "か")]);
    assert!(matching_entries("kk").is_empty());
    assert_eq!(matching_entries("").len(), ROMAJI_TABLE.len());
}
