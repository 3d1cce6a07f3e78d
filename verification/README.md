# wasi_code_executor

A service that runs Python, JavaScript and Ruby programs in a Wasm sandbox,
answers over HTTP, caches the responses of successful runs and records every
run in SQLite.

The decisions of the service live in a library verified with Verus:

- `src/types.rs`: languages, requests, responses and sandbox limits.
- `src/cache.rs`: the execution cache (keys made from a SHA-256 digest of
  the code, time to live, bounded capacity, hit and miss counts) and the
  laws that relate its lookups and insertions.
- `src/sandbox.rs`: which host paths and network domains a run may reach,
  the network policy, and the messages of refused requests.
- `src/host_functions.rs`: the registry of host functions and the built-in
  host functions themselves.
- `src/interpreter.rs`: the choice of interpreter for a program, and the
  simulated run used when no interpreter can be started.
- `src/runtime.rs`: the program a run executes, its timeout and response,
  and how the cache is consulted and filled around a run.
- `src/modules.rs`: the compiled language modules, loaded once per
  language and kept with their sizes.
- `src/records.rs`: request validation and the records and totals read
  back from the executions table.
- `src/text.rs`, `src/clock.rs`: text helpers and clock readings.

`app/` is the program around the library: the HTTP server (axum), the
database (sqlx), the Wasm engine (wasmtime), processes and files.  The
stub modules of the languages are read at start-up from `wasm/`.
