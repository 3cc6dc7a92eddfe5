//! A Raft node skeleton: cluster configuration, node state, RPC messages,
//! the wire framing of commands and a key-value state machine.
pub mod raft;
pub mod snapshot;
