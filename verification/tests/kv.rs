use raftrust::raft::state_machine::StateMachine;
use raftrust::snapshot::kv::{Command, Kv, Response};

fn set(kv: &mut Kv, k: &str, v: &str) -> Response {
    kv.apply(Command::SetValue { key: k.to_string(), value: v.to_string() }).unwrap()
}

fn get(kv: &mut Kv, k: &str) -> Response {
    kv.apply(Command::Get { key: k.to_string() }).unwrap()
}

#[test]
fn get_after_set_answers_the_value() {
    let mut kv = Kv::new();
    assert_eq!(set(&mut kv, "a", "1"), Response::SetOk);
    assert_eq!(get(&mut kv, "a"), Response::GetOk(Some("1".to_string())));
}

#[test]
fn second_set_replaces_the_first() {
    let mut kv = Kv::new();
    set(&mut kv, "a", "1");
    set(&mut kv, "a", "2");
    assert_eq!(get(&mut kv, "a"), Response::GetOk(Some("2".to_string())));
}

#[test]
fn set_leaves_other_keys() {
    let mut kv = Kv::new();
    set(&mut kv, "a", "1");
    set(&mut kv, "b", "2");
    assert_eq!(get(&mut kv, "a"), Response::GetOk(Some("1".to_string())));
    assert_eq!(get(&mut kv, "b"), Response::GetOk(Some("2".to_string())));
}

#[test]
fn del_answers_del_ok_and_keeps_others() {
    let mut kv = Kv::new();
    set(&mut kv, "a", "1");
    set(&mut kv, "b", "2");
    assert_eq!(kv.apply(Command::Del { key: "a".to_string() }).unwrap(), Response::DelOk);
    assert_eq!(get(&mut kv, "b"), Response::GetOk(Some("2".to_string())));
    // deleting a key that is not there is accepted too
    assert_eq!(kv.apply(Command::Del { key: "zz".to_string() }).unwrap(), Response::DelOk);
}
