//! Verified core of the Slime input method and of its evaluation tools.

pub mod actions;
pub mod arguments;
pub mod balanced;
pub mod balanced_options;
pub mod candidate;
pub mod conllu;
pub mod context_pack_options;
pub mod context_rules;
pub mod corpus;
pub mod corpus_bigram;
pub mod corpus_options;
pub mod correction;
pub mod coverage;
pub mod coverage_options;
pub mod devset;
pub mod devset_options;
pub mod dictionary_pack;
pub mod discretion;
pub mod edit;
pub mod evaluation;
pub mod evaluation_options;
pub mod features;
pub mod generation;
pub mod input_events;
pub mod greedy_probe;
pub mod json;
pub mod json_reading;
pub mod kana;
pub mod native;
pub mod neural;
pub mod order;
pub mod pack_evaluation;
pub mod pack_text;
pub mod pair_table;
pub mod phrases;
pub mod primitives;
pub mod private_corpus;
pub mod probe_options;
pub mod probe_plan;
pub mod probes;
pub mod reading_back;
pub mod recall;
pub mod recall_options;
pub mod report;
pub mod responses;
pub mod romaji;
pub mod romaji_table;
pub mod rule_options;
pub mod sampling;
pub mod scoring;
pub mod startup;
pub mod startup_options;
pub mod surface_annotation;
pub mod tables;
pub mod tally;
pub mod text;
pub mod trie;
pub mod whole_result;
