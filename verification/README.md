# node-bridge

A node's bridge to its blackboard: it sends heartbeats, takes task cards
from its queue and reports their results, forwards the local outbox, writes
the notes addressed to the node into the local inbox, and lets a language
model answer inbox messages marked for it, within a daily quota.

## Layout

- `src/` is the verified library. Each module states its behaviour in
  `requires`/`ensures` contracts over views (`Seq<char>`, `Seq<u8>`) and the
  JSON tree of `json.rs`:
  - `bb.rs` — the blackboard address, request text and reply reading;
  - `config.rs` — the command line;
  - `clock.rs` — ISO 8601 local timestamps from a clock reading;
  - `listing.rs` — list replies in key order, task cards, the notes a node
    takes in;
  - `node.rs` — heartbeats, results, registration, identity, mailboxes;
  - `actions.rs`, `exec.rs` — task dispatch, shell results, output decoding;
  - `llm.rs` — the model runner's decisions as a state machine;
  - `logger.rs` — log records, the log file and its rotation;
  - `signature.rs`, `base64.rs` — keys in the identity, signatures;
  - `text.rs`, `json.rs` — strings and JSON values with exact specifications.
- `app/` is the daemon around it: threads, sockets, files, processes and
  the clock, each calling the library for what to do.
- `tests/` runs the library on concrete values.
