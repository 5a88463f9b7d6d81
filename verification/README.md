# rustdex

A code indexer for AI agents: it extracts symbols (functions, classes,
methods) with their byte spans from source files through tree-sitter
grammars (for Vue files, from their scripts), finds HTTP routes in Python
(Flask/FastAPI decorators, Django `path(...)`) and JavaScript/TypeScript
(Express) sources,
and ranks name searches. The library in `src/` is written in Verus and
verified; `app/` is the command-line program around it (SQLite storage,
directory walking, file watching, BERT embeddings).

Layout of `src/`:

- `text.rs`: character-level helpers (trimming, first line, UTF-8 decoding).
- `model.rs`: the symbol, route and repository records, and where a repository's database lives.
- `syntax.rs`: parsing into a pre-order list of syntax-tree nodes, and symbol extraction from it.
- `routes.rs`: route extraction over regex matches.
- `search.rs`: search queries, ranking by name length, symbol source spans.
- `indexing.rs`: the decisions of an indexing run (skipped entries, content hashes).
- `watch.rs`: what the watcher does with each event.
- `tools.rs`: tool arguments and their default limits.
