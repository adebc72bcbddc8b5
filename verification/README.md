# slime

The core of a Japanese input method and of its evaluation tools, as executable Rust whose behaviour
is stated in contracts and proved by Verus.

- `src/` is the verified library.
  - Typing: `romaji`, `romaji_table`, `kana`.
  - The native interface: `input_events`, `actions`, `json`, `native`.
  - Rescoring with a model: `neural`, `trie`, `scoring`, `candidate`, `correction`, `edit`,
    `generation`, `whole_result`, `features`.
  - Evaluation: `evaluation`, `report`, `recall`, `greedy_probe`, `probe_plan`, `probes`,
    `tally`, `sampling`, `corpus_bigram`, `coverage`, `pack_evaluation`, `startup`.
  - Corpora and dictionaries: `corpus`, `private_corpus`, `context_rules`, `phrases`, `devset`,
    `surface_annotation`, `conllu`, `balanced`, `tables`, `dictionary_pack`, `pack_text`,
    `discretion`, `reading_back`.
  - Command lines: `arguments` and the modules that end in `_options`.
  - Foundations: `text`, `order`, `pair_table`, and `primitives`, which holds everything that is
    taken from std and from `sha2` without proof.
- `tests/` runs the library.
- `app/` holds the programs around it: files, processes, the conversion engine, the model, the C
  interface, and what is computed in floating point.

Scores reach the library as integers that order as they do, margins as flags, and numbers on the
command line as their bits, so that every decision that is taken on them is in the library.
