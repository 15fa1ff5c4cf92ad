# Codex Hosts

Codex Hosts keeps SSH and Telnet hosts for an assistant. A window edits them, a file protocol and a
server on stdio run commands on them, and secrets stay with the operating system: they are never
part of a request or of an answer.

## Layout

- `src/` is the library. Every decision of the program stands here, with a contract that Verus
  proves: host profiles and their chains, the connection pool, the logins, the Telnet dialogue, the
  messages of security keys, saving and recovering the store, importing and exporting hosts, batches
  and their output budgets, temporary secrets and their approvals, and the state of the window.
- `app/` is the program around it: sockets, files, pipes, the credential store, the drawing and the
  server. It performs what the library decides and hands back what happened.
- `tests/` runs the library with its dependencies.

## How the library is written

Work that waits for the outside is a state machine: the library names the first action, and takes
what came of it to name the next one (`connect`, `auth`, `telnet`, `storage`, `commit`, `removal`).
Each type has a view of plain values, and contracts speak of these views. What holds across
functions is stated as public proof functions, such as `saving_never_loses_the_store`,
`a_call_authenticates_again` or `hidden_hosts_are_not_found`.

The library calls a few functions of other crates, such as UUIDs, CBOR, hashes, signatures and key
files. Each stands in a small function marked `external_body`, whose comment says what is relied on.
