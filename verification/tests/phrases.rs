//! Phrases from annotated text.

use slime::phrases::{
    has_administrative_suffix, is_compound_element, is_kana, is_kanji, is_lexical_character,
    parse_tokens, phonetic_runs, render_phrases, sample_evenly, suspicious_administrative_tokens,
    Phrase, PhraseCollector,
};
use slime::private_corpus::Token;

fn phrase(reading: &str, surface: &str) -> Phrase {
    Phrase {
        reading: reading.to_owned(),
        surface: surface.to_owned(),
    }
}

#[test]
fn creates_only_bounded_multi_kanji_phrases() {
    let tokens = parse_tokens(
        "新規/しんき 商品/しょうひん を/を 共同/きょうどう 開発/かいはつ する/する 。/。",
    )
    .unwrap();
    let mut collector = PhraseCollector::new();
    for (start, end) in phonetic_runs(&tokens) {
        let run = &tokens[start..end];
        collector.collect_phrases(run, &vec![false; run.len()]);
    }
    let phrases = &collector.phrases;
    assert!(phrases.contains(&phrase("しんきしょうひん", "新規商品")));
    assert!(phrases.contains(&phrase("きょうどうかいはつ", "共同開発")));
    assert!(phrases.iter().all(|phrase| !phrase.surface.contains('。')));
    assert!(phrases.iter().all(|phrase| !phrase.surface.contains('を')));
    assert!(
        phrases
            .iter()
            .all(|phrase| !phrase.surface.contains("する"))
    );
}

#[test]
fn rejects_inflection_fragments_even_when_each_contains_kanji() {
    let tokens = parse_tokens("微/び 妙に/みょうに 違/ちがい う/う").unwrap();
    let mut collector = PhraseCollector::new();
    collector.collect_phrases(&tokens, &vec![false; tokens.len()]);
    assert!(collector.phrases.is_empty());
    assert!(collector.stats.non_compound_elements > 0);
}

fn regions(tokens: &[Token]) -> Vec<bool> {
    tokens
        .iter()
        .map(|token| {
            (token.reading == "おきなわけん" && token.surface == "沖縄県")
                || (token.reading == "ぎのざむら" && token.surface == "宜野座村")
        })
        .collect()
}

#[test]
fn rejects_misread_administrative_segments_after_a_region_anchor() {
    let tokens = parse_tokens("沖縄県/おきなわけん 宜野/よしの 座村/ざむら").unwrap();
    let mut collector = PhraseCollector::new();
    collector.collect_phrases(&tokens, &regions(&tokens));

    assert!(!collector.phrases.iter().any(|phrase| {
        phrase.reading == "おきなわけんよしのざむら" && phrase.surface == "沖縄県宜野座村"
    }));
    assert!(collector.stats.suspicious_administrative_windows > 0);
    assert!(suspicious_administrative_tokens(&tokens, &regions(&tokens))
        .iter()
        .any(|suspicious| *suspicious));

    let correct = parse_tokens("沖縄県/おきなわけん 宜野座村/ぎのざむら").unwrap();
    let mut collector = PhraseCollector::new();
    collector.collect_phrases(&correct, &regions(&correct));
    assert!(collector
        .phrases
        .contains(&phrase("おきなわけんぎのざむら", "沖縄県宜野座村")));
}

#[test]
fn sampling_is_deterministic_and_spans_the_input() {
    let phrases: Vec<_> = (0..10)
        .map(|index| Phrase {
            reading: index.to_string(),
            surface: index.to_string(),
        })
        .collect();
    assert_eq!(
        sample_evenly(&phrases, 3)
            .iter()
            .map(|phrase| phrase.reading.as_str())
            .collect::<Vec<_>>(),
        ["0", "3", "6"]
    );
}

#[test]
fn repeated_and_unfit_windows_are_counted() {
    let tokens = parse_tokens("新規/しんき 商品/しょうひん").unwrap();
    let mut collector = PhraseCollector::new();
    collector.collect_phrases(&tokens, &[false, false]);
    collector.collect_phrases(&tokens, &[false, false]);
    assert_eq!(collector.stats.windows, 2);
    assert_eq!(collector.stats.duplicates, 1);
    assert_eq!(collector.phrases.len(), 1);
    let short = parse_tokens("図書/と 書店/し").unwrap();
    collector.collect_phrases(&short, &[false, false]);
    assert_eq!(collector.stats.outside_reading_length, 1);
    collector.count_line(&Some(tokens));
    collector.count_line(&None);
    assert_eq!(collector.stats.lines, 2);
    assert_eq!(collector.stats.invalid_lines, 1);
    let (selected, stats) = collector.finish(5).unwrap();
    assert_eq!(selected.len(), 1);
    assert_eq!(stats.unique_phrases, 1);
    assert_eq!(stats.selected_phrases, 1);
    assert_eq!(stats.lines, 2);
    assert_eq!(
        PhraseCollector::new().finish(5).unwrap_err(),
        "annotated inputs produced no compound phrases"
    );
    assert_eq!(
        render_phrases(&collector.phrases),
        "しんきしょうひん\t新規商品\n"
    );
}

#[test]
fn characters_have_classes() {
    assert!(is_kana('か'));
    assert!(!is_kana('漢'));
    assert!(is_kanji('漢'));
    assert!(is_kanji('々'));
    assert!(!is_kanji('か'));
    assert!(is_lexical_character('漢'));
    assert!(has_administrative_suffix("宜野座村"));
    assert!(!has_administrative_suffix("商品"));
    let tokens = parse_tokens("商品/しょうひん を/を").unwrap();
    assert!(is_compound_element(&tokens[0]));
    assert!(!is_compound_element(&tokens[1]));
    assert!(parse_tokens("商品").is_none());
}
