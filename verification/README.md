# aster_db

A graph database library whose logic is proved with Verus: an in-memory
property graph, a Gremlin traversal language (parser and evaluator), graph
queries with a result cache, connected components and shortest routes,
write-ahead-log records and their replay, and the bookkeeping around them.

## Layout

- `src/` — the verified library. Each public function states in its
  contract what it returns or changes; laws that relate several functions
  are public proof functions (`lemma_*`).
  - `graph.rs`, `types.rs`, `idmap.rs`, `registry.rs`: the property graph,
    property maps and the edge registry.
  - `gremlin/`: the traversal language — `parser.rs` (text to steps),
    `semantics.rs` (what each step means), `engine.rs`, `run.rs`,
    `runner.rs` (executing steps), `results.rs`, `context.rs`, `laws.rs`.
  - `query_engine.rs`: breadth- and depth-first search, k-hop
    neighbourhoods, range queries, the query cache, filters, projections,
    aggregates, connected components (`components.rs`) and shortest routes
    (`paths.rs`).
  - `recovery.rs`: log entries, checksums (crc32fast), framing, replay
    order and replay statistics; `sorting.rs` holds the stable sort they use.
  - `optimizer.rs`: merging the results of range partitions; `scan.rs`:
    optimized range scans over the adjacency store — cutting a range into
    partitions, the sequential and index-guided scans with filters pushed
    down, partitioned scans merged, and the choice within a hybrid plan.
  - `server.rs`, `metrics.rs`, `benchmarks.rs`, `error.rs`: responses,
    health records, workload descriptions and errors.
- `tests/` — tests of the library on concrete values.
- `app/` — the HTTP server around the library (axum, tokio, clap), log files
  on disk (bincode), JSON conversions (serde), and the analytics that
  compute with doubles (PageRank, routes weighted by range preference).
