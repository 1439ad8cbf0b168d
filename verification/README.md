# code_ranker

A structural code analyser whose core logic is written in Verus and proved
against its contracts: module and import graphs, `use` resolution (following
`pub use` re-exports), test-item stripping, focus-path matching, the scorecard
tables, the reference docs (layering the doc specs, routing a subject,
rendering), merging `[[principles]]` by id, cognitive-complexity steps, and the
text helpers they share.

Layout:

- `src/` — the verified library. Each module states its behaviour over
  mathematical models (`Seq`, `Map`, spec functions) and proves its functions
  against them; laws that relate several functions are public `lemma_*` proof
  functions.
  - `use_graph`, `use_resolve`, `module_walk`, `item_walk` — the Rust module
    graph: node ids, module indexes, the walk over module bodies, pending uses,
    resolution and edge emission.
  - `test_strip` — which `fn` and `mod` items are test-only, and removing
    their lines.
  - `cognitive` — the per-node step of cognitive complexity for Python, Rust
    and ECMAScript.
  - `python`, `py_structure` — the Python file graph: module paths, import
    extraction and resolution, external packages.
  - `focus`, `scorecard`, `report` — `--focus-path` matching and the console
    report.
  - `docs`, `doc_specs`, `docs_route`, `config`, `plugins` — reference docs
    (their specs, subject routing and rendering), config values and the plugin
    registry.
  - `rust_text`, `text`, `fmt`, `strs`, `maps`, `paths`, `logger` — shared text,
    formatting, map and path helpers, and the stage timer.
- `tests/` — tests on concrete values.
- `app/` — the command-line driver: reads files, runs `cargo metadata`, parses
  with `syn` and `tree-sitter`, and prints what the library computes.
