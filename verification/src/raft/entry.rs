use vstd::prelude::*;

use crate::raft::command::Command;

verus! {

/// One entry of the replicated log: the term in which the leader received
/// it and the command it carries.
#[derive(Debug, Clone, PartialEq, Eq)]
pub struct Entry {
    term: u64,
    cmd: Command,
}

impl Entry {
    /// The term of the entry.
    pub closed spec fn term(&self) -> u64 {
        self.term
    }

    /// The command of the entry.
    pub closed spec fn command(&self) -> Command {
        self.cmd
    }

    /// Builds an entry of `term` carrying `cmd`.
    pub fn new(term: u64, cmd: Command) -> (entry: Entry)
        ensures
            entry.term() == term,
            entry.command() == cmd,
    {
        Entry { term, cmd }
    }

    /// The term in which the entry was received.
    pub fn read_term(&self) -> (term: u64)
        ensures
            term == self.term(),
    {
        self.term
    }

    /// The command the entry carries.
    pub fn read_command(&self) -> (cmd: &Command)
        ensures
            *cmd == self.command(),
    {
        &self.cmd
    }
}

} // verus!
