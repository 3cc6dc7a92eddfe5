//! A key-value store as a replicated state machine.
use vstd::prelude::*;
use vstd::hash_map::StringHashMap;

use crate::raft::state_machine::StateMachine;

verus! {

/// A command to the key-value store.
#[derive(Debug, Clone, PartialEq, Eq)]
pub enum Command {
    SetValue { key: String, value: String },
    Get { key: String },
    Del { key: String },
}

/// What the key-value store answers to a command.
#[derive(Debug, Clone, PartialEq, Eq)]
pub enum Response {
    SetOk,
    GetOk(Option<String>),
    DelOk,
}

#[verifier::external_type_specification]
#[verifier::external_body]
pub struct ExFmtError(std::fmt::Error);

/// A key-value store from strings to strings.
pub struct Kv {
    data: StringHashMap<String>,
}

/// A command can be applied to the contents `data`: a read needs its key
/// to be present.
pub open spec fn spec_apply_defined(data: Map<Seq<char>, String>, command: Command) -> bool {
    match command {
        Command::Get { key } => data.contains_key(key@),
        _ => true,
    }
}

/// The contents after `command` and the answer to it: a write stores the
/// value under the key, a read answers the value under the key, a delete
/// drops the key.
pub open spec fn spec_apply(data: Map<Seq<char>, String>, command: Command) -> (
    Map<Seq<char>, String>,
    Response,
) {
    match command {
        Command::SetValue { key, value } => (data.insert(key@, value), Response::SetOk),
        Command::Get { key } => (data, Response::GetOk(Some(data[key@]))),
        Command::Del { key } => (data.remove(key@), Response::DelOk),
    }
}

impl View for Kv {
    type V = Map<Seq<char>, String>;

    closed spec fn view(&self) -> Map<Seq<char>, String> {
        self.data@
    }
}

impl Kv {
    /// An empty store.
    pub fn new() -> (kv: Kv)
        ensures
            kv@ == Map::<Seq<char>, String>::empty(),
    {
        Kv { data: StringHashMap::new() }
    }
}

impl StateMachine for Kv {
    type Command = Command;
    type Response = Response;
    type Error = std::fmt::Error;

    open spec fn apply_defined(&self, command: Command) -> bool {
        spec_apply_defined(self@, command)
    }

    /// Taking a snapshot of the store is not implemented.
    open spec fn snapshot_defined(&self) -> bool {
        false
    }

    /// Restoring the store from a snapshot is not implemented.
    open spec fn restore_defined(&self, snapshot: Seq<u8>) -> bool {
        false
    }

    fn apply(&mut self, command: Command) -> (r: Result<Response, std::fmt::Error>)
        ensures
            r matches Ok(resp) && (final(self)@, resp) == spec_apply(old(self)@, command),
            command matches Command::SetValue { key, value } ==> r == Ok::<Response, std::fmt::Error>(
                Response::SetOk,
            ) && final(self)@ == old(self)@.insert(key@, value),
            command matches Command::Get { key } ==> r == Ok::<Response, std::fmt::Error>(
                Response::GetOk(Some(old(self)@[key@])),
            ) && final(self)@ == old(self)@,
            command matches Command::Del { key } ==> r == Ok::<Response, std::fmt::Error>(
                Response::DelOk,
            ) && final(self)@ == old(self)@.remove(key@),
    {
        match command {
            Command::SetValue { key, value } => {
                self.data.insert(key, value);
                Ok(Response::SetOk)
            },
            Command::Get { key } => {
                let entry = self.data.get(key.as_str()).expect("failed to get key");
                Ok(Response::GetOk(Some(entry.clone())))
            },
            Command::Del { key } => {
                self.data.remove(key.as_str());
                Ok(Response::DelOk)
            },
        }
    }

    fn snapshot(&self) -> Vec<u8> {
        Vec::new()
    }

    fn restore(&mut self, snapshot: &[u8]) -> Result<(), std::fmt::Error> {
        Ok(())
    }
}

/// A read after a write answers what was written.
pub proof fn lemma_get_after_set(data: Map<Seq<char>, String>, key: String, value: String, read_key: String)
    requires
        read_key@ == key@,
    ensures
        spec_apply_defined(spec_apply(data, Command::SetValue { key, value }).0, Command::Get { key: read_key }),
        spec_apply(spec_apply(data, Command::SetValue { key, value }).0, Command::Get { key: read_key }).1
            == Response::GetOk(Some(value)),
{
}

/// A write leaves every other key as it was, and a later write of the same
/// key replaces the earlier one.
pub proof fn lemma_set_isolation(
    data: Map<Seq<char>, String>,
    key: String,
    value: String,
    other: Seq<char>,
    value2: String,
)
    ensures
        other != key@ ==> spec_apply(data, Command::SetValue { key, value }).0.contains_key(other)
            == data.contains_key(other),
        other != key@ && data.contains_key(other) ==> spec_apply(
            data,
            Command::SetValue { key, value },
        ).0[other] == data[other],
        spec_apply(
            spec_apply(data, Command::SetValue { key, value }).0,
            Command::SetValue { key, value: value2 },
        ).0 == data.insert(key@, value2),
{
    assert(data.insert(key@, value).insert(key@, value2) =~= data.insert(key@, value2));
}

/// After a delete the key is gone, so a read of it is no longer defined,
/// and the other keys are as they were.
pub proof fn lemma_del_removes(data: Map<Seq<char>, String>, key: String, read_key: String)
    requires
        read_key@ == key@,
    ensures
        !spec_apply_defined(spec_apply(data, Command::Del { key }).0, Command::Get { key: read_key }),
        spec_apply(data, Command::Del { key }).0 == data.remove(key@),
{
}

/// A read changes nothing.
pub proof fn lemma_get_keeps(data: Map<Seq<char>, String>, key: String)
    ensures
        spec_apply(data, Command::Get { key }).0 == data,
{
}

/// Every command is answered by its own kind: a write with `SetOk`
/// whether or not the key was there, a read with the value under the key,
/// a delete with `DelOk` whether or not the key was there.
pub proof fn lemma_answers(data: Map<Seq<char>, String>, key: String, value: String)
    ensures
        spec_apply(data, Command::SetValue { key, value }).1 == Response::SetOk,
        spec_apply(data, Command::SetValue { key, value }).0 == data.insert(key@, value),
        spec_apply(data, Command::Get { key }).1 == Response::GetOk(Some(data[key@])),
        spec_apply(data, Command::Del { key }).1 == Response::DelOk,
        spec_apply(data, Command::Del { key }).0 == data.remove(key@),
{
}

} // verus!
