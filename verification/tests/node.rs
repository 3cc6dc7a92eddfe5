use std::collections::HashMap;

use raftrust::raft::node::{
    send_heartbeat, Configure, Ipid, Node, Role, SocketAddr, UniformError, UniformRange,
};
use raftrust::raft::text::IntErrorKind;

fn ipid(id: &str, ip: &str) -> Ipid {
    Ipid { id: id.to_string(), ip: ip.to_string() }
}

fn addr(a: u8, b: u8, c: u8, d: u8, port: u16) -> SocketAddr {
    SocketAddr { ip: (a, b, c, d), port }
}

#[test]
fn parse_socketaddr_reads_canonical_text() {
    assert_eq!(Node::parse_socketaddr("127.0.0.1:8080"), Ok(addr(127, 0, 0, 1, 8080)));
    assert_eq!(Node::parse_socketaddr("192.168.0.1:8080"), Ok(addr(192, 168, 0, 1, 8080)));
}

#[test]
fn parse_socketaddr_ignores_fields_past_the_fourth() {
    assert_eq!(Node::parse_socketaddr("1.2.3.4.5:80"), Ok(addr(1, 2, 3, 4, 80)));
    assert_eq!(Node::parse_socketaddr("1.2.3.4:80:90"), Ok(addr(1, 2, 3, 4, 80)));
}

#[test]
fn parse_socketaddr_errors() {
    assert_eq!(Node::parse_socketaddr("256.0.0.1:80"), Err(IntErrorKind::PosOverflow));
    assert_eq!(Node::parse_socketaddr("1.x.0.1:80"), Err(IntErrorKind::InvalidDigit));
    assert_eq!(Node::parse_socketaddr("1..0.1:80"), Err(IntErrorKind::Empty));
    assert_eq!(Node::parse_socketaddr("1.2.3.4:70000"), Err(IntErrorKind::PosOverflow));
    assert_eq!(Node::parse_socketaddr("1.2.3.4:"), Err(IntErrorKind::Empty));
}

#[test]
fn socket_text_round_trip_examples() {
    for a in [addr(0, 0, 0, 0, 0), addr(255, 255, 255, 255, 65535), addr(10, 0, 12, 9, 443)] {
        let text = format!("{}.{}.{}.{}:{}", a.ip.0, a.ip.1, a.ip.2, a.ip.3, a.port);
        assert_eq!(Node::parse_socketaddr(&text), Ok(a));
    }
}

#[test]
fn return_sockets_builds_the_address_book() {
    let nodes = vec![ipid("1", "127.0.0.1:8001"), ipid("2", "127.0.0.1:8002")];
    let map = Node::return_sockets(&nodes).unwrap();
    assert_eq!(map.len(), 2);
    assert_eq!(map[&1], addr(127, 0, 0, 1, 8001));
    assert_eq!(map[&2], addr(127, 0, 0, 1, 8002));
}

#[test]
fn return_sockets_empty_list() {
    assert!(Node::return_sockets(&vec![]).unwrap().is_empty());
}

#[test]
fn return_sockets_bad_id() {
    let nodes = vec![ipid("1", "127.0.0.1:8001"), ipid("two", "127.0.0.1:8002")];
    assert_eq!(
        Node::return_sockets(&nodes),
        Err("err occured in return sockets: unable to parse String to u16 : {} => u16".to_string())
    );
}

#[test]
fn return_sockets_out_of_order() {
    let nodes = vec![ipid("2", "127.0.0.1:8001")];
    assert_eq!(
        Node::return_sockets(&nodes),
        Err("config filr error: node is not declared in ascending order. please check your config file".to_string())
    );
}

#[test]
fn return_sockets_bad_address() {
    let nodes = vec![ipid("1", "127.0.0.999:8001")];
    assert_eq!(
        Node::return_sockets(&nodes),
        Err("Err ocurred when parsing String into SocketAddr ".to_string())
    );
}

#[test]
fn return_sockets_stops_at_the_first_refusal() {
    // the second entry is refused before the third's malformed address is read
    let nodes = vec![ipid("1", "1.1.1.1:1"), ipid("3", "1.1.1.1:2"), ipid("3", "garbage")];
    assert_eq!(
        Node::return_sockets(&nodes),
        Err("config filr error: node is not declared in ascending order. please check your config file".to_string())
    );
}

fn config(n: u16) -> Configure {
    Configure {
        nodes: (1..=n).map(|i| ipid(&i.to_string(), &format!("127.0.0.1:{}", 8000 + i))).collect(),
        max_election_timeout: 300,
        min_election_timeout: 150,
        heartbeat: 50,
    }
}

#[test]
fn test_get_cluster() {
    let cluster = Node::insert_node_on_single_server(config(3)).unwrap();
    assert_eq!(cluster.len(), 3);
    let mut ids: Vec<u16> = cluster.iter().map(|n| n.this_nodeid()).collect();
    ids.sort();
    assert_eq!(ids, vec![1, 2, 3]);
    for node in cluster.iter() {
        println!("{:?}", node);
        assert!(!node.is_leader());
        assert_eq!(node.this_term(), 0);
        assert_eq!(node.leader_commit(), 0);
        assert_eq!(node.get_heartbeat(), 50);
        assert_eq!(node.get_nodelist().len(), 3);
        assert_eq!(node.get_nodelist()[&2], addr(127, 0, 0, 1, 8002));
        for peer in 1..=3u16 {
            if peer != node.this_nodeid() {
                assert_eq!(node.node_prev_index(peer), 0);
            }
        }
        for _ in 0..20 {
            let t = node.get_election_timout();
            assert!(150 <= t && t < 300);
        }
    }
}

#[test]
fn insert_node_reports_the_reading_error() {
    let mut c = config(2);
    c.nodes[1].id = "x".to_string();
    assert_eq!(
        Node::insert_node_on_single_server(c).err(),
        Some("err occured in return sockets: unable to parse String to u16 : {} => u16".to_string())
    );
}

#[test]
fn create_nodes_gives_every_peer_next_index_one() {
    let mut list = HashMap::new();
    list.insert(1u16, addr(1, 1, 1, 1, 1));
    list.insert(2u16, addr(2, 2, 2, 2, 2));
    let u = UniformRange::new(10, 20).unwrap();
    let cluster = Node::create_nodes(list, &u, 7);
    assert_eq!(cluster.len(), 2);
    for node in &cluster {
        let other = 3 - node.this_nodeid();
        assert_eq!(node.node_prev_index(other), 0);
        assert_eq!(node.get_heartbeat(), 7);
    }
}

#[test]
fn uniform_range_refuses_an_empty_range() {
    assert_eq!(UniformRange::new(5, 5).err(), Some(UniformError::EmptyRange));
    assert_eq!(UniformRange::new(6, 5).err(), Some(UniformError::EmptyRange));
    let u = UniformRange::new(5, 6).unwrap();
    for _ in 0..10 {
        assert_eq!(u.sample(), 5);
    }
}

#[test]
fn new_node_is_a_follower() {
    let mut next = HashMap::new();
    next.insert(2u16, 4u64);
    let u = UniformRange::new(1, 2).unwrap();
    let node = Node::new(1, next, HashMap::new(), &HashMap::new(), &u, 9);
    assert!(!node.is_leader());
    assert_eq!(node.this_nodeid(), 1);
    assert_eq!(node.node_prev_index(2), 3);
    assert_eq!(node.get_election_timout(), 1);
    let _ = Role::Follower;
}

#[test]
fn heartbeat_of_a_node_without_peers() {
    let u = UniformRange::new(1, 2).unwrap();
    let node = Node::new(1, HashMap::new(), HashMap::new(), &HashMap::new(), &u, 9);
    assert!(send_heartbeat(&node).is_empty());
}

#[test]
fn fixed_uniform_takes_the_configured_bounds() {
    let c = config(1);
    let u = Node::get_fixed_uniform(&c);
    for _ in 0..20 {
        let t = u.sample();
        assert!(150 <= t && t < 300);
    }
}
