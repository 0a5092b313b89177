# cybion

The decision logic of the Cybion cloud service, written in Verus and proved
against its contracts: input validation, history queries, the compilation of
a thread's replayable context, Responses API payloads and stream parsing,
retries and compaction, Worker pairing, calls and upgrades, integration
credentials, traffic accounting and browser session bookkeeping.

Layout:

- `src/` — the verified library, one module per concern (`thread_context`,
  `context`, `compaction`, `requests`, `workers`, `history`, `traffic`,
  `browser`, ...). Calls into `uuid`, `url`, `sha2`, `hex` and `chrono` go
  through small trusted wrappers whose contracts are stated next to them,
  and so does the one `serde_json` serialization that the library makes.
- `app/` — plain Rust at the edge: SQLite storage (`rusqlite`), conversion
  between `serde_json` documents and the library's `Json`, the reading of
  upstream HTTP answers, and the loops that run an agent turn and a
  checkpoint compaction, each step of which the library decides.
- `tests/` — executable tests of the library.
