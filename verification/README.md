# arnelify_server

A multi-protocol server (HTTP/1.1, HTTP/2, WebSocket, WebTransport, and a
Unix-domain-socket channel to a handler process) whose request parsing,
message framing and response building are verified with Verus.

## Layout

- `src/` — the verified library.
  - `request.rs` — the HTTP request reader: head (method, target, query,
    headers, cookies), JSON, form and multipart bodies, file storage, and
    its invariant.
  - `http1.rs`, `http2.rs` — the readers and response writers of the two
    HTTP dialects; `response.rs` — the response writer they share.
  - `ws.rs`, `wt.rs`, `uds.rs`, `framing.rs` — WebSocket, WebTransport and
    session-channel messages: the `<json>+<binary>:` framing and its readers.
  - `settings.rs` — the promises of the body settings, proved of every
    reading step (form limits, empty files, where files are stored).
  - `on_the_fly.rs` — reading in blocks: a head, a JSON or form body, a
    skipped body, or a multipart body cut inside a boundary, cut between
    blocks, is read as if it came whole (the framing reader's counterpart
    is in `framing.rs`); `part_waits.rs` — a multipart body that waits on
    the head of its next part loses nothing either.
  - `dialects.rs` — HTTP/1.1 and HTTP/2 read multipart bodies alike, and
    each reader keeps its dialect.
  - `serialize.rs` — JSON text through `serde_json`: the bodies and message
    parts the readers parse, and the text of outgoing messages and bodies.
  - `command.rs` — commands and settings sent by the handler process.
  - `json.rs`, `text.rs`, `head.rs`, `split.rs`, `ctx.rs`, `error.rs`,
    `rewrite.rs`, `sys.rs` — JSON trees, text rules, header pieces, request
    contexts, refusals, head rewriting, and the few standard-library calls
    (clock, `std::path`) the library makes.
- `tests/` — tests of the library on concrete requests and messages.
- `app/` — the servers around the library: sockets, TLS, the async
  runtime, files, and the Python module.

## Checking

`src/` verifies with Verus; `tests/` run with `cargo test` against the
compiled library.
