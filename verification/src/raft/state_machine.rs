//! The replicated state machine that committed commands are applied to.
use vstd::prelude::*;

verus! {

/// A state machine that applies commands, and that can be saved to bytes
/// and restored from them.
pub trait StateMachine {
    type Command;
    type Response;
    type Error;

    /// The commands that the machine can apply in its current state.
    spec fn apply_defined(&self, command: Self::Command) -> bool;

    /// Whether the machine can take a snapshot of itself.
    spec fn snapshot_defined(&self) -> bool;

    /// The snapshots that the machine can restore itself from.
    spec fn restore_defined(&self, snapshot: Seq<u8>) -> bool;

    fn apply(&mut self, command: Self::Command) -> Result<Self::Response, Self::Error>
        requires
            old(self).apply_defined(command),
    ;

    fn snapshot(&self) -> Vec<u8>
        requires
            self.snapshot_defined(),
    ;

    fn restore(&mut self, snapshot: &[u8]) -> Result<(), Self::Error>
        requires
            old(self).restore_defined(snapshot@),
    ;
}

} // verus!
