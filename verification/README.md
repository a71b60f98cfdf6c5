# lolserialize

The checked core of a small serialization toolkit, verified with Verus.

- `src/schema.rs` — the schema syntax tree.
- `src/checker.rs` — the semantic checks on a schema, specified exactly
  (`check_errors`), with a proof that a schema passes them exactly when it
  is well formed (`lemma_check_accepts_exactly_valid`).
- `src/leb128.rs` — LEB128 integers, with the round-trip law.
- `src/wire.rs` — the RPC message layout and how message headers
  are read back.
- `src/server.rs`, `src/client.rs` — the server's and the client's decision
  for each message, as state machines, with laws tying the two sides
  together.
- `src/framing.rs` — length-prefixed framing for byte streams, with the law
  that messages written one after another are read back with their
  boundaries.
- `src/text.rs`, `src/rpc_error.rs` — message text and RPC errors.

`app/` holds what runs around the library: printing diagnostics with
ariadne, the tokio runtime that carries out the state machines' decisions,
and the test harness's schema compilation.
