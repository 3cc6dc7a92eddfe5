//! A state machine backed by a MySQL database; none of its operations is
//! implemented yet.
use vstd::prelude::*;

use crate::raft::state_machine::StateMachine;

verus! {

/// A change to a table.
pub enum Command {
    Insert(String),
    Remove(String),
    Update(String, String),
}

/// A MySQL-backed state machine.
pub struct Mysql {}

impl StateMachine for Mysql {
    type Command = ();
    type Response = ();
    type Error = ();

    /// Applying a command is not implemented.
    open spec fn apply_defined(&self, command: ()) -> bool {
        false
    }

    /// Taking a snapshot is not implemented.
    open spec fn snapshot_defined(&self) -> bool {
        false
    }

    /// Restoring from a snapshot is not implemented.
    open spec fn restore_defined(&self, snapshot: Seq<u8>) -> bool {
        false
    }

    fn apply(&mut self, command: ()) -> Result<(), ()> {
        Ok(())
    }

    fn snapshot(&self) -> Vec<u8> {
        Vec::new()
    }

    fn restore(&mut self, snapshot: &[u8]) -> Result<(), ()> {
        Ok(())
    }
}

} // verus!
