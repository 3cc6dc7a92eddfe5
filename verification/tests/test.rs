use raftrust::raft::tcp::{id_request, read_and_parse_id};

#[test]
fn test_init_node() {
    let request_json = format!("{{\"id\":{}}}\n", 1);
    let id = read_and_parse_id(request_json.into_bytes()).unwrap();
    println!("init node id : {}", id);
    assert_eq!(id, 1);
}

#[test]
fn id_request_is_what_the_handshake_writes() {
    assert_eq!(id_request(1), format!("{{\"id\":{}}}\n", 1));
    assert_eq!(id_request(65535), "{\"id\":65535}\n");
}

#[test]
fn id_request_reads_back() {
    for id in [0u16, 1, 9, 10, 255, 4096, 65535] {
        assert_eq!(read_and_parse_id(id_request(id).into_bytes()), Ok(id));
    }
}
