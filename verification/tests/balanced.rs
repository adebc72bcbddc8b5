//! Benchmark items from a treebank.

use slime::balanced::{
    annotated_corpus, build_items, is_content_word, load_reading_surfaces, phrase_window_bounds,
    sample_evenly,
};
use slime::conllu::{is_phrase_boundary, parse_conllu, unidic_pronunciation};
use slime::pair_table::PairTable;
use slime::surface_annotation::SurfaceReadingIndex;

fn fish_dictionary() -> PairTable {
    PairTable::from_pairs(vec![
        ("さかな".to_owned(), "魚".to_owned()),
        ("さかな".to_owned(), "肴".to_owned()),
    ])
}

#[test]
fn reads_surface_pronunciation_from_unidic_info() {
    let misc = "SpaceAfter=No|UnidicInfo=ツカウ,使う,使わ,使う,ツカワ,,,ツカウ,ツカウ,使う";
    assert_eq!(unidic_pronunciation(misc), Some("ツカワ".to_owned()));
}

#[test]
fn creates_one_contextual_ambiguous_item_per_sentence() {
    let source = "# sent_id = test-1\n# text = 私は魚を食べる。\n1\t私\t私\tPRON\t代名詞\t_\t3\tnsubj\t_\tSpaceAfter=No|UnidicInfo=ワタシ,私,私,私,ワタシ\n2\tは\tは\tADP\t助詞\t_\t1\tcase\t_\tSpaceAfter=No|UnidicInfo=ハ,は,は,は,ワ\n3\t魚\t魚\tNOUN\t名詞\t_\t5\tobj\t_\tSpaceAfter=No|UnidicInfo=サカナ,魚,魚,魚,サカナ\n4\tを\tを\tADP\t助詞\t_\t3\tcase\t_\tSpaceAfter=No|UnidicInfo=ヲ,を,を,を,オ\n5\t食べる\t食べる\tVERB\t動詞\t_\t0\troot\t_\tSpaceAfter=No|UnidicInfo=タベル,食べる,食べ,食べる,タベル\n6\t。\t。\tPUNCT\t補助記号\t_\t5\tpunct\t_\tSpaceAfter=No\n\n";
    let sentences = parse_conllu(source);
    let dictionary = fish_dictionary();
    let surface_readings = SurfaceReadingIndex::from_pairs(vec![]);
    let items = build_items(&sentences, &dictionary, "test", false, &surface_readings);
    assert_eq!(items.len(), 1);
    assert_eq!(items[0].target_upos, "NOUN");
    assert_eq!(items[0].context_text, "私は");
    assert_eq!(items[0].right_context_text, "を食べる。");
    assert_eq!(items[0].input, "サカナ");
    assert_eq!(items[0].expected_output, ["魚"]);
}

#[test]
fn creates_a_long_phrase_window_without_crossing_punctuation() {
    let source = "# sent_id = test-1\n# text = 私は魚を食べる。\n1\t私\t私\tPRON\t代名詞\t_\t3\tnsubj\t_\tSpaceAfter=No|UnidicInfo=ワタシ,私,私,私,ワタシ\n2\tは\tは\tADP\t助詞\t_\t1\tcase\t_\tSpaceAfter=No|UnidicInfo=ハ,は,は,は,ワ\n3\t魚\t魚\tNOUN\t名詞\t_\t5\tobj\t_\tSpaceAfter=No|UnidicInfo=サカナ,魚,魚,魚,サカナ\n4\tを\tを\tADP\t助詞\t_\t3\tcase\t_\tSpaceAfter=No|UnidicInfo=ヲ,を,を,を,オ\n5\t食べる\t食べる\tVERB\t動詞\t_\t0\troot\t_\tSpaceAfter=No|UnidicInfo=タベル,食べる,食べ,食べる,タベル\n6\t。\t。\tPUNCT\t補助記号\t_\t5\tpunct\t_\tSpaceAfter=No\n\n";
    let sentences = parse_conllu(source);
    let dictionary = fish_dictionary();
    let surface_readings = SurfaceReadingIndex::from_pairs(vec![
        ("私".to_owned(), "わたし".to_owned()),
        ("魚".to_owned(), "さかな".to_owned()),
    ]);
    let items = build_items(&sentences, &dictionary, "test", true, &surface_readings);

    assert_eq!(items.len(), 1);
    assert_eq!(items[0].context_text, "");
    assert_eq!(items[0].right_context_text, "を食べる。");
    assert_eq!(items[0].input, "ワタシハサカナ");
    assert_eq!(items[0].expected_output, ["私は魚"]);
}

#[test]
fn sentences_without_targets_make_no_item() {
    let sentences = parse_conllu("# sent_id = a\n1\t魚\t魚\tNOUN\t_\t_\t0\troot\t_\tUnidicInfo=サカナ,魚,魚,魚,サカナ\n");
    assert_eq!(sentences.len(), 1);
    assert!(sentences[0].tokens[0].space_after);
    let readings = SurfaceReadingIndex::from_pairs(vec![]);
    assert!(build_items(&sentences, &fish_dictionary(), "test", false, &readings).is_empty());
}

#[test]
fn malformed_lines_are_skipped() {
    assert!(parse_conllu("1-2\ta\ta\tNOUN\t_\t_\t0\troot\t_\t_\nshort\n").is_empty());
    assert_eq!(unidic_pronunciation("SpaceAfter=No"), None);
    assert_eq!(unidic_pronunciation("UnidicInfo=a,b,c,d,"), None);
    assert!(is_phrase_boundary("PUNCT"));
    assert!(!is_phrase_boundary("NOUN"));
    assert!(is_content_word("VERB"));
    assert!(!is_content_word("ADP"));
}

#[test]
fn words_are_taken_once() {
    let source = "# sent_id = test-1\n# text = 私は魚を食べる。\n1\t私\t私\tPRON\t代名詞\t_\t3\tnsubj\t_\tSpaceAfter=No|UnidicInfo=ワタシ,私,私,私,ワタシ\n2\tは\tは\tADP\t助詞\t_\t1\tcase\t_\tSpaceAfter=No|UnidicInfo=ハ,は,は,は,ワ\n3\t魚\t魚\tNOUN\t名詞\t_\t5\tobj\t_\tSpaceAfter=No|UnidicInfo=サカナ,魚,魚,魚,サカナ\n4\tを\tを\tADP\t助詞\t_\t3\tcase\t_\tSpaceAfter=No|UnidicInfo=ヲ,を,を,を,オ\n5\t食べる\t食べる\tVERB\t動詞\t_\t0\troot\t_\tSpaceAfter=No|UnidicInfo=タベル,食べる,食べ,食べる,タベル\n6\t。\t。\tPUNCT\t補助記号\t_\t5\tpunct\t_\tSpaceAfter=No\n\n";
    let sentences = parse_conllu(&format!("{source}{source}"));
    assert_eq!(sentences.len(), 2);
    let readings = SurfaceReadingIndex::from_pairs(vec![]);
    let items = build_items(&sentences, &fish_dictionary(), "test", false, &readings);
    assert_eq!(items.len(), 1);
    assert_eq!(items[0].index, "test-1:3");
    assert_eq!(items[0].source_split, "test");
    assert_eq!(sample_evenly(items, 5).len(), 1);
    assert_eq!(phrase_window_bounds(&sentences[0].tokens, 2), Some((0, 3)));
}

#[test]
fn sentences_are_written_as_a_corpus() {
    let source = "# sent_id = test-1\n# text = 私は魚を食べる。\n1\t私\t私\tPRON\t代名詞\t_\t3\tnsubj\t_\tSpaceAfter=No|UnidicInfo=ワタシ,私,私,私,ワタシ\n2\tは\tは\tADP\t助詞\t_\t1\tcase\t_\tSpaceAfter=No|UnidicInfo=ハ,は,は,は,ワ\n3\t魚\t魚\tNOUN\t名詞\t_\t5\tobj\t_\tSpaceAfter=No|UnidicInfo=サカナ,魚,魚,魚,サカナ\n4\tを\tを\tADP\t助詞\t_\t3\tcase\t_\tSpaceAfter=No|UnidicInfo=ヲ,を,を,を,オ\n5\t食べる\t食べる\tVERB\t動詞\t_\t0\troot\t_\tSpaceAfter=No|UnidicInfo=タベル,食べる,食べ,食べる,タベル\n6\t。\t。\tPUNCT\t補助記号\t_\t5\tpunct\t_\tSpaceAfter=No\n\n";
    let sentences = parse_conllu(source);
    assert_eq!(
        annotated_corpus(&sentences),
        "私/わたし は/わ 魚/さかな を/お 食べる/たべる 。/。\n"
    );
}

#[test]
fn readings_of_a_table_are_normalized() {
    let table = load_reading_surfaces("サカナ\t魚\nさかな\t肴\nさかな\t魚\n");
    assert_eq!(table.len(), 2);
    assert!(table.holds("さかな", "魚"));
    assert!(!table.holds("サカナ", "魚"));
    assert_eq!(table.partners("さかな").len(), 2);
    assert_eq!(table.firsts(), ["さかな"]);
}
