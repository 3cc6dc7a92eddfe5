use raftrust::raft::tcp::{next_round, retry_step, RetryStep};
use std::collections::HashSet;

use raftrust::raft::tcp::{
    accept_read_chunk, admission_from_member, admission_reply, downstream_peers, id_from_member,
    parse_value_to_u16, random_sleep_millis, read_and_parse_id, read_json, receive_peer,
    retry_delay_factor, sleep_function, upstream_peers, JsonMember,
};

#[test]
fn read_and_parse_id_errors() {
    assert_eq!(read_and_parse_id(b"{\"x\":1}".to_vec()), Err("id not found in json data .".to_string()));
    assert_eq!(read_and_parse_id(b"{\"id\":-1}".to_vec()), Err("parse u64 err".to_string()));
    assert_eq!(read_and_parse_id(b"{\"id\":\"1\"}".to_vec()), Err("parse u64 err".to_string()));
    assert_eq!(
        read_and_parse_id(b"{\"id\":65536}".to_vec()),
        Err("TryFromIntError occured during parsing u16".to_string())
    );
    let e = read_and_parse_id(b"{\"id\":".to_vec()).unwrap_err();
    assert!(e.starts_with("Failed to parse json : "), "{}", e);
    let e = read_and_parse_id(vec![0xff, 0xfe]).unwrap_err();
    assert!(e.starts_with("Failed to parse id cause e : "), "{}", e);
}

#[test]
fn read_json_reads_members() {
    assert_eq!(
        read_json(b"{\"admission\": true}\n".to_vec(), "admission"),
        Ok(JsonMember::Present { as_u64: None, as_bool: Some(true) })
    );
    assert_eq!(read_json(b"[1,2]".to_vec(), "id"), Ok(JsonMember::Absent));
    assert_eq!(
        read_json(b"{\"id\": 42}".to_vec(), "id"),
        Ok(JsonMember::Present { as_u64: Some(42), as_bool: None })
    );
}

#[test]
fn id_from_member_cases() {
    assert_eq!(id_from_member(JsonMember::Present { as_u64: Some(7), as_bool: None }), Ok(7));
    assert_eq!(id_from_member(JsonMember::Absent), Err("id not found in json data .".to_string()));
    assert_eq!(
        id_from_member(JsonMember::Present { as_u64: None, as_bool: Some(true) }),
        Err("parse u64 err".to_string())
    );
    assert_eq!(
        id_from_member(JsonMember::Present { as_u64: Some(70000), as_bool: None }),
        Err("TryFromIntError occured during parsing u16".to_string())
    );
}

#[test]
fn admission_cases() {
    let yes = read_json(admission_reply(true).into_bytes(), "admission").unwrap();
    let no = read_json(admission_reply(false).into_bytes(), "admission").unwrap();
    assert_eq!(admission_from_member(yes), Ok(()));
    assert_eq!(admission_from_member(no), Err("wrong admission detected om check response.".to_string()));
    assert_eq!(admission_from_member(JsonMember::Absent), Err("None value detect in check_response".to_string()));
    assert_eq!(
        admission_from_member(JsonMember::Present { as_u64: Some(1), as_bool: None }),
        Err("parse bool err detected om check response.".to_string())
    );
    assert_eq!(admission_reply(true), "{\"admission\": true}\n");
    assert_eq!(admission_reply(false), "{\"admission\": false}\n");
}

#[test]
fn parse_value_to_u16_cases() {
    assert_eq!(parse_value_to_u16(Some(3)), Ok(3));
    assert_eq!(parse_value_to_u16(None), Err("None value return  in parsing to u64.".to_string()));
    let e = parse_value_to_u16(Some(1 << 20)).unwrap_err();
    assert!(e.starts_with("Failed to parse id cause e : "), "{}", e);
}

#[test]
fn peers_split_the_cluster() {
    assert_eq!(upstream_peers(2, 5), vec![3, 4, 5]);
    assert_eq!(upstream_peers(5, 5), Vec::<u16>::new());
    assert_eq!(upstream_peers(6, 5), Vec::<u16>::new());
    let down: HashSet<u16> = [1, 2].into_iter().collect();
    assert_eq!(downstream_peers(3), down);
    assert!(downstream_peers(1).is_empty());
    assert!(downstream_peers(0).is_empty());
}

#[test]
fn each_pair_connects_once_example() {
    let n = 4u16;
    for a in 1..=n {
        for b in 1..=n {
            if a < b {
                assert!(upstream_peers(a, n).contains(&b));
                assert!(downstream_peers(b).contains(&a));
                assert!(!upstream_peers(b, n).contains(&a));
                assert!(!downstream_peers(a).contains(&b));
            }
        }
    }
}

#[test]
fn receive_peer_keeps_each_awaited_peer_once() {
    let mut remaining: HashSet<u16> = [1, 2].into_iter().collect();
    assert!(receive_peer(&mut remaining, 2));
    assert!(!receive_peer(&mut remaining, 2));
    assert!(!receive_peer(&mut remaining, 9));
    assert!(receive_peer(&mut remaining, 1));
    assert!(remaining.is_empty());
}

#[test]
fn accept_read_chunk_stops_at_newline() {
    let mut all = Vec::new();
    assert!(!accept_read_chunk(&mut all, b"{\"id\""));
    assert!(!accept_read_chunk(&mut all, b""));
    assert!(accept_read_chunk(&mut all, b":1}\n"));
    assert_eq!(all, b"{\"id\":1}\n".to_vec());
}

#[test]
fn sleep_function_counts_and_refuses() {
    let mut count = 0u32;
    assert_eq!(sleep_function(2, &mut count), Ok(0));
    assert_eq!(sleep_function(2, &mut count), Ok(1));
    assert_eq!(count, 2);
    assert_eq!(
        sleep_function(2, &mut count),
        Err("cannot establish connection! at clousure of initialize_connection. ".to_string())
    );
    assert_eq!(count, 2);
}

#[test]
fn retry_delay_factor_doubles() {
    assert_eq!(retry_delay_factor(0), 1);
    assert_eq!(retry_delay_factor(1), 2);
    assert_eq!(retry_delay_factor(9), 512);
    assert_eq!(retry_delay_factor(31), 1 << 31);
}

#[test]
fn random_sleep_millis_in_range() {
    for _ in 0..50 {
        let ms = random_sleep_millis(100, 200);
        assert!((100..=200).contains(&ms));
    }
    assert_eq!(random_sleep_millis(7, 7), 7);
}

#[test]
fn retry_step_gives_up_at_the_limit() {
    assert_eq!(retry_step(1, 10), RetryStep::Retry);
    assert_eq!(retry_step(9, 10), RetryStep::Retry);
    assert_eq!(retry_step(10, 10), RetryStep::GiveUp);
    assert_eq!(retry_step(0, 0), RetryStep::GiveUp);
}

#[test]
fn next_round_counts_and_gives_up_past_the_limit() {
    let mut rounds = 0u32;
    assert_eq!(next_round(&mut rounds, 2), RetryStep::Retry);
    assert_eq!(next_round(&mut rounds, 2), RetryStep::Retry);
    assert_eq!(next_round(&mut rounds, 2), RetryStep::GiveUp);
    assert_eq!(rounds, 3);
}
