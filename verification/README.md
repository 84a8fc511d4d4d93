# heaven

An in-memory key/value server that speaks the RESP wire protocol (strings,
counters, hashes, lists, sets, expiry times, publish/subscribe), with its
logic verified by Verus.

## Layout

- `src/wish.rs`, `src/wish/` — requests: the reader that frames RESP requests
  out of a connection's bytes (`virtue.rs`), decimal numerals and line breaks
  (`util.rs`), and the argument checks that turn a request into replies and
  work for the keyspace (`grant.rs`).
- `src/temple/` — the keyspace (`soul.rs`, over the ordered byte maps of
  `table.rs`), publish/subscribe bookkeeping (`pubsub.rs`), the keyspace's
  thread as a state machine (`sanctum.rs`), and laws relating its commands
  (`laws.rs`).
- `src/egress.rs` — replies and published messages as bytes on the wire.
- `src/roster.rs` — connection tokens.
- `app/` — the program around the library: command-line arguments, the
  event loop over sockets, the reading and writing threads, and snapshots on
  disk.
- `tests/` — tests of the keyspace and of the protocol.

The contracts of the library state each operation's effect on the
keyspace and its reply exactly, and the `law_*` proof functions state what
holds across operations.
