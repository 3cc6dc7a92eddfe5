use raftrust::raft::command::unframe;
use raftrust::raft::command::{encode, Command, MAX_SIZE};
use raftrust::raft::entry::Entry;

#[test]
fn encode_prefixes_the_big_endian_length() {
    let payload = [7u8, 8, 9];
    let packet = encode(&payload).unwrap();
    assert_eq!(&packet[..], &[0, 0, 0, 3, 7, 8, 9]);
}

#[test]
fn encode_empty_payload() {
    let packet = encode(&[]).unwrap();
    assert_eq!(&packet[..], &[0, 0, 0, 0]);
}

#[test]
fn encode_length_over_one_byte() {
    let payload = vec![0xabu8; 0x0102];
    let packet = encode(&payload).unwrap();
    assert_eq!(&packet[..4], &[0, 0, 1, 2]);
    assert_eq!(&packet[4..], &payload[..]);
}

#[test]
fn encode_largest_payload_fills_the_packet() {
    let payload = vec![1u8; MAX_SIZE - 4];
    let packet = encode(&payload).unwrap();
    assert_eq!(packet.len(), MAX_SIZE);
    assert_eq!(&packet[..4], &[0, 0, 0xff, 0xfc]);
}

#[test]
fn frame_splits_back_into_length_and_payload() {
    let payload: Vec<u8> = (0..300u32).map(|i| (i % 251) as u8).collect();
    let packet = encode(&payload).unwrap();
    let len = u32::from_be_bytes([packet[0], packet[1], packet[2], packet[3]]) as usize;
    assert_eq!(len, payload.len());
    assert_eq!(&packet[4..], &payload[..]);
}

#[test]
fn entry_reads_back_its_fields() {
    let e = Entry::new(5, Command::Print { msg: "hi".to_string() });
    assert_eq!(e.read_term(), 5);
    assert_eq!(e.read_command(), &Command::Print { msg: "hi".to_string() });
}

#[test]
fn unframe_gives_back_what_encode_framed() {
    for payload in [vec![], vec![5u8], vec![1, 2, 3, 4, 5, 6, 7]] {
        let packet = encode(&payload).unwrap();
        assert_eq!(unframe(&packet), Some(payload));
    }
}

#[test]
fn unframe_refuses_short_packets_and_ignores_trailing_bytes() {
    assert_eq!(unframe(&[0, 0, 0]), None);
    assert_eq!(unframe(&[0, 0, 0, 2, 9]), None);
    assert_eq!(unframe(&[0, 0, 0, 1, 9, 8]), Some(vec![9]));
}
