# clickhouse

The logic of a ClickHouse client, verified with Verus: what is sent, what an answer means, and
what is done next. The library performs no I/O.

- `src/client.rs`, `src/query.rs`, `src/sql.rs`, `src/sql_builder.rs`, `src/settings.rs`: clients,
  statements and the requests that they become; `src/client_laws.rs` states what holds of them
  together.
- `src/response.rs`, `src/progress.rs`, `src/error.rs`, `src/recovery.rs`: answers, exceptions and
  progress, and where an insert failed.
- `src/native/`: the native protocol. Numbers and strings on the wire, type names, blocks and their
  decoding, and the connection and the cursor as state machines.
- `src/batch_isolation.rs`, `src/batch_laws.rs`: the search for the rows of a batch that a server
  rejects, and how many inserts it takes.
- `src/insert_native.rs`, `src/async_inserter.rs`, `src/sink/`: inserts in Native format, the worker
  behind a shared inserter, and sinks with flush policies.
- `src/metadata.rs`, `src/tls.rs`, `src/http_client.rs`, `src/compression.rs`, `src/duration.rs`,
  `src/text.rs`: what the others need.
- `app/`: connections, tasks and streams around the library, in ordinary Rust.
- `tests/`: the library on concrete values.

State machines work in turns. A call gives the next action, the caller performs it and hands back
what came of it.

Calls into other crates and into parts of std without a specification stand behind small functions
marked `#[verifier::external_body]`. Each says above it what it claims of the call.
