pub mod command;
pub mod entry;
pub mod node;
pub mod random;
pub mod raftrpc;
pub mod state_machine;
pub mod tcp;
pub mod text;
