//! Texts, kana and numbers.

use slime::kana::{
    any_ideograph, full_katakana, hiragana_to_katakana, katakana_to_hiragana,
    katakana_to_hiragana_with_marks,
};
use slime::order::{place_text, sorted, Placement};
use slime::text::{
    after_prefix, any_control, ascii_letter, ascii_word, begins_with, characters, columns_of,
    count_text, decimal_text, holds_part, lines_of, read_count, read_i32, read_unsigned,
    signed_decimal_text, split_at_first, split_at_last, text_between, text_of, trimmed,
    white_space, words_of,
};

#[test]
fn texts_are_split_as_std_splits_them() {
    let samples = [
        "",
        "a",
        "a\tb",
        "\t",
        "a\n",
        "a\r\nb\r",
        "\n\nx",
        "  a  b\u{3000}c ",
        "漢字/かんじ x/y/z",
    ];
    for text in samples {
        assert_eq!(columns_of(text, '\t'), text.split('\t').collect::<Vec<_>>());
        assert_eq!(lines_of(text), text.lines().collect::<Vec<_>>());
        assert_eq!(words_of(text), text.split_whitespace().collect::<Vec<_>>());
        assert_eq!(trimmed(text), text.trim());
        let owned =
            |parts: Option<(&str, &str)>| parts.map(|(a, b)| (a.to_owned(), b.to_owned()));
        assert_eq!(split_at_first(text, '/'), owned(text.split_once('/')));
        assert_eq!(split_at_last(text, '/'), owned(text.rsplit_once('/')));
        assert_eq!(begins_with(text, "a"), text.starts_with('a'));
        assert_eq!(
            after_prefix(text, "a"),
            text.strip_prefix("a").map(str::to_owned)
        );
        assert_eq!(holds_part(text, "b"), text.contains("b"));
        assert_eq!(holds_part(text, ""), text.contains(""));
        assert_eq!(any_control(text), text.chars().any(char::is_control));
        assert_eq!(text_of(&characters(text)), text);
    }
    assert_eq!(text_between(&characters("漢字変換"), 1, 3), "字変");
}

#[test]
fn characters_are_classified_as_std_classifies_them() {
    for code in 0..0x3100_u32 {
        if let Some(character) = char::from_u32(code) {
            assert_eq!(white_space(character), character.is_whitespace());
            assert_eq!(ascii_letter(character), character.is_ascii_alphabetic());
            assert_eq!(ascii_word(character), character.is_ascii_alphanumeric());
        }
    }
}

#[test]
fn numbers_are_read_as_std_reads_them() {
    for text in ["", "0", "+5", "-5", "007", "18446744073709551616", "1x", "+", "2147483648"] {
        assert_eq!(read_count(text), text.parse::<usize>().ok());
        assert_eq!(read_i32(text), text.parse::<i32>().ok());
        assert_eq!(
            read_unsigned(text, u64::MAX),
            text.parse::<u64>().ok()
        );
        assert_eq!(
            read_unsigned(text, 6),
            text.parse::<u64>().ok().filter(|value| *value <= 6)
        );
    }
    assert_eq!(decimal_text(u64::MAX), "18446744073709551615");
    assert_eq!(count_text(0), "0");
    assert_eq!(signed_decimal_text(i64::MIN), "-9223372036854775808");
}

#[test]
fn kana_change_their_script() {
    assert_eq!(katakana_to_hiragana("ヴァイオリン・ヽ"), "ゔぁいおりん・ヽ");
    assert_eq!(katakana_to_hiragana_with_marks("カヽヾ"), "かゝゞ");
    assert_eq!(hiragana_to_katakana("かけい、ゔゝ"), "カケイ、ヴゝ");
    assert_eq!(full_katakana("かゝゞ"), "カヽヾ");
    assert!(any_ideograph("かな漢字"));
    assert!(!any_ideograph("かなカナ"));
}

#[test]
fn texts_have_an_order() {
    for (left, right) in [("a", "b"), ("a", "a"), ("ab", "a"), ("漢", "か"), ("", "a")] {
        let expected = match left.cmp(right) {
            std::cmp::Ordering::Less => Placement::Before,
            std::cmp::Ordering::Equal => Placement::Same,
            std::cmp::Ordering::Greater => Placement::After,
        };
        assert_eq!(place_text(left, right), expected);
    }
    let texts: Vec<String> = ["b", "a", "漢", "か", "a"]
        .iter()
        .map(|text| text.to_string())
        .collect();
    let mut expected = texts.clone();
    expected.sort();
    assert_eq!(sorted(texts), expected);
}
