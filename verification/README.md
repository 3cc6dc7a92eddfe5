# raftrust

A Raft node skeleton whose logic is verified with Verus.

- `src/raft/node.rs` — reading the cluster configuration (ids in order,
  `a.b.c.d:port` addresses), building one follower per configured node,
  the node's state and the heartbeats a leader sends.
- `src/raft/text.rs` — decimal numbers and separator-split fields.
- `src/raft/command.rs` — commands and the length-prefixed packet framing.
- `src/raft/tcp.rs` — the decisions of the connection handshake.
- `src/raft/raftrpc.rs`, `src/raft/entry.rs` — RPC messages and log entries.
- `src/raft/state_machine.rs`, `src/snapshot/` — the replicated state
  machine and a key-value store implementing it.
- `app/` — the program: configuration file, serialisation, sockets, timers.
