# Elinor

Elinor (Evaluation Library in INfOrmation Retrieval) evaluates information
retrieval systems: it stores gold relevance judgments and predicted relevance
scores, ranks and judges the retrieved documents, and checks and prepares the
inputs of statistical tests that compare systems.

The library under `src/` is written in Verus. Its functions are verified
against their contracts, except these trusted items, whose contracts are
believed as the outside code's source and documentation show them:

- `keys::char_to_string` (std's `String::from(char)`) and
  `text::string_from_chars` (collecting characters into a `String`);
- `statistical_tests::resampling`: the declaration of `rand`'s `StdRng`, and
  `seeded_rng`, `gen_index`, `shuffle_in_place` and `entropy_seed`, which
  call `rand`'s `seed_from_u64`, `gen_range`, `shuffle` and `random`; the
  generator that a seed gives is named `seeded_generator`;
- `json`: the declaration of `serde_json`'s `Value`, and `json_from_str`,
  which calls `serde_json::from_str` and converts the value with the helper
  `json_value_of`; its result is named `json_parse`.

The modules:

- `relevance`: the relevance store and its builder, whose view is a map from
  query ids to maps from document ids to scores; documents of a query are
  ranked by descending score, ties by document id.
- `qrels` and `run`: named relevance judgments and named runs with textual
  ids, in which a query may have no documents.
- `json`: relevance judgments and runs read from JSON.
- `trec`: reading relevance judgments and runs in the TREC format.
- `metrics`: the metrics, their names and cut-offs, read from and written to
  text.
- `rankings`: the counts and ranks of relevant documents from which the
  metrics are computed.
- `evaluation`: per-query scores of a metric, aligned across results.
- `statistical_tests`: the testers' parameters, the checks on their samples,
  alignment of score maps, and resampling from a seeded generator.
- `keys`, `maps`, `text`, `errors`: identifiers and their order, maps given
  by sorted pairs, text scanning, and the error type.

`app/` is the command-line tool around the library: file input and output,
JSON, and the floating-point computation of metric scores and test
statistics. `tests/` holds the tests of the library.
