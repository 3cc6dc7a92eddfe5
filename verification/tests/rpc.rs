use raftrust::raft::raftrpc::AppendEntriesRpcRequest;

#[test]
fn heartbeat_carries_its_fields_and_no_entries() {
    let a = AppendEntriesRpcRequest::create_heartbeatrpc(3, 1, 4, 2, 9);
    let b = AppendEntriesRpcRequest::create_heartbeatrpc(3, 1, 4, 2, 9);
    assert_eq!(a, b);
    assert_ne!(a, AppendEntriesRpcRequest::create_heartbeatrpc(3, 2, 4, 2, 9));
    let text = format!("{:?}", a);
    assert!(text.contains("leader_term: 3"));
    assert!(text.contains("prev_log_index: 4"));
    assert!(text.contains("entries: []"));
}
