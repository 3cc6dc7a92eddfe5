//! A Raft node: its persistent and volatile state, and how a cluster of
//! nodes is built from a configuration.
use vstd::prelude::*;
use vstd::std_specs::iter::IteratorSpec;

use std::collections::HashMap;

use crate::raft::entry::Entry;
use crate::raft::raftrpc::{heartbeat_view, AppendEntriesRpcRequest, AppendEntriesView};
use crate::raft::random::{uniform_accepts, uniform_sample};
use crate::raft::text::{
    chars_of, decimal, is_digit, lemma_decimal_digits, lemma_parse_decimal, lemma_split_join,
    lemma_split_nonempty, lemma_split_without_sep, parse_u16, parse_u8, spec_parse_u16,
    spec_parse_u8, split_chars, split_on, IntErrorKind,
};

verus! {

/// The part a node plays in the cluster.
#[derive(Debug, Clone, Copy, PartialEq, Eq)]
pub enum Role {
    Leader,
    Candidate,
    Follower,
}

/// An IPv4 socket address: four octets and a port.
#[derive(Debug, Clone, Copy, PartialEq, Eq, Hash)]
pub struct SocketAddr {
    pub ip: (u8, u8, u8, u8),
    pub port: u16,
}

/// The cluster configuration: the nodes, the bounds of the election
/// timeout and the heartbeat interval, in milliseconds.
#[derive(Debug)]
pub struct Configure {
    pub nodes: Vec<Ipid>,
    pub max_election_timeout: u64,
    pub min_election_timeout: u64,
    pub heartbeat: u64,
}

/// One node of the configuration: its id and its address, both as written.
#[derive(Debug)]
pub struct Ipid {
    pub id: String,
    pub ip: String,
}

/// Why a range of election timeouts was refused.
#[derive(Debug, Clone, Copy, PartialEq, Eq)]
pub enum UniformError {
    /// The lower bound is not below the upper bound.
    EmptyRange,
}

/// The half-open range `[low, high)` from which election timeouts are drawn
/// uniformly; it is never empty.
#[derive(Debug, Clone, Copy)]
pub struct UniformRange {
    low: u64,
    high: u64,
}

impl UniformRange {
    #[verifier::type_invariant]
    spec fn nonempty(self) -> bool {
        self.low < self.high
    }

    pub closed spec fn low(self) -> u64 {
        self.low
    }

    pub closed spec fn high(self) -> u64 {
        self.high
    }

    /// The range `[low, high)`, refused when it is empty.
    pub fn new(low: u64, high: u64) -> (r: Result<UniformRange, UniformError>)
        ensures
            r is Ok <==> low < high,
            r matches Ok(u) ==> u.low() == low && u.high() == high,
            r matches Err(e) ==> e == UniformError::EmptyRange,
    {
        if uniform_accepts(low, high) {
            Ok(UniformRange { low, high })
        } else {
            Err(UniformError::EmptyRange)
        }
    }

    /// A value drawn from the range.
    pub fn sample(&self) -> (r: u64)
        ensures
            self.low() <= r < self.high(),
    {
        proof {
            use_type_invariant(self);
        }
        uniform_sample(self.low, self.high)
    }
}

/// A Raft node.
#[derive(Debug)]
pub struct Node {
    // persistent state
    current_term: u64,
    voted_for: Option<u16>,
    log: Vec<Entry>,
    // volatile state on all servers
    commit_index: u64,
    last_applied: u64,
    // volatile state on leaders
    next_index: HashMap<u16, u64>,
    match_index: HashMap<u16, u64>,
    // membership and timing
    id: u16,
    role: Role,
    node_list: HashMap<u16, SocketAddr>,
    heartbeat: u64,
    uniform: UniformRange,
    election_timout: Option<u64>,
}

/// The state of a node, as plain values.
pub struct NodeView {
    pub current_term: u64,
    pub voted_for: Option<u16>,
    pub log: Seq<Entry>,
    pub commit_index: u64,
    pub last_applied: u64,
    pub next_index: Map<u16, u64>,
    pub match_index: Map<u16, u64>,
    pub id: u16,
    pub role: Role,
    pub node_list: Map<u16, SocketAddr>,
    pub heartbeat: u64,
    pub uniform: UniformRange,
    pub election_timout: Option<u64>,
}

impl View for Node {
    type V = NodeView;

    closed spec fn view(&self) -> NodeView {
        NodeView {
            current_term: self.current_term,
            voted_for: self.voted_for,
            log: self.log@,
            commit_index: self.commit_index,
            last_applied: self.last_applied,
            next_index: self.next_index@,
            match_index: self.match_index@,
            id: self.id,
            role: self.role,
            node_list: self.node_list@,
            heartbeat: self.heartbeat,
            uniform: self.uniform,
            election_timout: self.election_timout,
        }
    }
}

/// The state of a node that has just joined: a follower in term 0 with an
/// empty log, nothing committed or applied, no vote and no timeout drawn.
pub open spec fn initial_node(
    id: u16,
    next_index: Map<u16, u64>,
    match_index: Map<u16, u64>,
    node_list: Map<u16, SocketAddr>,
    uniform: UniformRange,
    heartbeat: u64,
) -> NodeView {
    NodeView {
        current_term: 0,
        voted_for: None,
        log: Seq::empty(),
        commit_index: 0,
        last_applied: 0,
        next_index,
        match_index,
        id,
        role: Role::Follower,
        node_list,
        heartbeat,
        uniform,
        election_timout: None,
    }
}

/// Every node of `node_list` but `id`, each mapped to `value`.
pub open spec fn peer_map(node_list: Map<u16, SocketAddr>, id: u16, value: u64) -> Map<u16, u64> {
    Map::new(|k: u16| node_list.contains_key(k) && k != id, |k: u16| value)
}

/// The state that node `id` of the cluster `node_list` starts with: the
/// next index of every peer is 1 and its match index 0.
pub open spec fn cluster_member(
    id: u16,
    node_list: Map<u16, SocketAddr>,
    uniform: UniformRange,
    heartbeat: u64,
) -> NodeView {
    initial_node(
        id,
        peer_map(node_list, id, 1),
        peer_map(node_list, id, 0),
        node_list,
        uniform,
        heartbeat,
    )
}

/// `nodes` holds one node per id of `node_list`, each in the state that
/// `cluster_member` gives it.
pub open spec fn is_cluster(
    nodes: Seq<Node>,
    node_list: Map<u16, SocketAddr>,
    uniform: UniformRange,
    heartbeat: u64,
) -> bool {
    &&& nodes.len() == node_list.len()
    &&& forall|i: int|
        0 <= i < nodes.len() ==> {
            &&& node_list.contains_key(#[trigger] nodes[i]@.id)
            &&& nodes[i]@ == cluster_member(nodes[i]@.id, node_list, uniform, heartbeat)
        }
    &&& forall|i: int, j: int|
        0 <= i < nodes.len() && 0 <= j < nodes.len() && i != j ==> #[trigger] nodes[i]@.id
            != #[trigger] nodes[j]@.id
    &&& forall|id: u16|
        #[trigger] node_list.contains_key(id) ==> exists|i: int|
            0 <= i < nodes.len() && #[trigger] nodes[i]@.id == id
}

// ---------------------------------------------------------------------------
// Socket addresses
// ---------------------------------------------------------------------------
/// `s` has the shape that `parse_socketaddr` needs: at least four
/// dot-separated fields, the last of which holds a colon.
pub open spec fn socket_shape_ok(s: Seq<char>) -> bool {
    let d = split_on(s, '.');
    d.len() >= 4 && split_on(d.last(), ':').len() >= 2
}

/// The address that `s` spells as `a.b.c.d:port`. The fourth octet is the
/// part of the last dot-separated field before its first colon when there
/// are exactly four fields; the port is the part between its first and
/// second colons; fields past the fourth are not read. The first field
/// that does not read as a number decides the error, octets before port.
pub open spec fn spec_parse_socketaddr(s: Seq<char>) -> Result<SocketAddr, IntErrorKind> {
    let d = split_on(s, '.');
    let c = split_on(d.last(), ':');
    let f3 = if d.len() == 4 {
        c[0]
    } else {
        d[3]
    };
    match spec_parse_u8(d[0]) {
        Err(e) => Err(e),
        Ok(a) => match spec_parse_u8(d[1]) {
            Err(e) => Err(e),
            Ok(b) => match spec_parse_u8(d[2]) {
                Err(e) => Err(e),
                Ok(cc) => match spec_parse_u8(f3) {
                    Err(e) => Err(e),
                    Ok(dd) => match spec_parse_u16(c[1]) {
                        Err(e) => Err(e),
                        Ok(port) => Ok(SocketAddr { ip: (a, b, cc, dd), port }),
                    },
                },
            },
        },
    }
}

/// The canonical text of an address, `a.b.c.d:port`, every number in
/// decimal.
pub open spec fn socket_text(addr: SocketAddr) -> Seq<char> {
    decimal(addr.ip.0 as nat) + seq!['.'] + decimal(addr.ip.1 as nat) + seq!['.'] + decimal(
        addr.ip.2 as nat,
    ) + seq!['.'] + decimal(addr.ip.3 as nat) + seq![':'] + decimal(addr.port as nat)
}

proof fn lemma_decimal_lacks(n: nat, c: char)
    requires
        !is_digit(c),
    ensures
        !decimal(n).contains(c),
{
    lemma_decimal_digits(n);
}

/// Every address, written in its canonical text, has the shape that
/// `parse_socketaddr` reads and reads back as itself.
pub proof fn lemma_socket_text_round_trip(addr: SocketAddr)
    ensures
        socket_shape_ok(socket_text(addr)),
        spec_parse_socketaddr(socket_text(addr)) == Ok::<SocketAddr, IntErrorKind>(addr),
{
    let d0 = decimal(addr.ip.0 as nat);
    let d1 = decimal(addr.ip.1 as nat);
    let d2 = decimal(addr.ip.2 as nat);
    let d3 = decimal(addr.ip.3 as nat);
    let dp = decimal(addr.port as nat);
    lemma_decimal_lacks(addr.ip.0 as nat, '.');
    lemma_decimal_lacks(addr.ip.1 as nat, '.');
    lemma_decimal_lacks(addr.ip.2 as nat, '.');
    lemma_decimal_lacks(addr.ip.3 as nat, '.');
    lemma_decimal_lacks(addr.port as nat, '.');
    lemma_decimal_lacks(addr.ip.3 as nat, ':');
    lemma_decimal_lacks(addr.port as nat, ':');
    let tail = d3 + seq![':'] + dp;
    assert(!tail.contains('.')) by {
        if tail.contains('.') {
            let i = choose|i: int| 0 <= i < tail.len() && tail[i] == '.';
            if i < d3.len() {
                assert(d3[i] == '.');
            } else if i > d3.len() {
                assert(dp[i - d3.len() - 1] == '.');
            }
        }
    }
    let x01 = d0 + seq!['.'] + d1;
    let x012 = x01 + seq!['.'] + d2;
    let s = socket_text(addr);
    assert(s =~= x012 + seq!['.'] + tail);
    lemma_split_without_sep(d0, '.');
    lemma_split_without_sep(d1, '.');
    lemma_split_without_sep(d2, '.');
    lemma_split_without_sep(tail, '.');
    lemma_split_join(d0, d1, '.');
    lemma_split_join(x01, d2, '.');
    lemma_split_join(x012, tail, '.');
    let d = split_on(s, '.');
    assert(d =~= seq![d0, d1, d2, tail]);
    lemma_split_without_sep(d3, ':');
    lemma_split_without_sep(dp, ':');
    lemma_split_join(d3, dp, ':');
    assert(split_on(tail, ':') =~= seq![d3, dp]);
    lemma_parse_decimal(addr.ip.0 as nat, 0xff);
    lemma_parse_decimal(addr.ip.1 as nat, 0xff);
    lemma_parse_decimal(addr.ip.2 as nat, 0xff);
    lemma_parse_decimal(addr.ip.3 as nat, 0xff);
    lemma_parse_decimal(addr.port as nat, 0xffff);
}

// ---------------------------------------------------------------------------
// Reading the node list of a configuration
// ---------------------------------------------------------------------------
pub open spec fn msg_bad_id() -> Seq<char> {
    "err occured in return sockets: unable to parse String to u16 : {} => u16"@
}

pub open spec fn msg_out_of_order() -> Seq<char> {
    "config filr error: node is not declared in ascending order. please check your config file"@
}

pub open spec fn msg_bad_addr() -> Seq<char> {
    "Err ocurred when parsing String into SocketAddr "@
}

/// The id of entry `k` reads as `k + 1`.
pub open spec fn id_in_order(nodes: Seq<Ipid>, k: int) -> bool {
    match spec_parse_u16(nodes[k].id@) {
        Ok(v) => v as int == k + 1,
        Err(_) => false,
    }
}

/// Entry `k` is accepted: its id is `k + 1` and its address reads.
pub open spec fn entry_accepted(nodes: Seq<Ipid>, k: int) -> bool {
    &&& id_in_order(nodes, k)
    &&& socket_shape_ok(nodes[k].ip@)
    &&& spec_parse_socketaddr(nodes[k].ip@) is Ok
}

/// The first `k` entries are accepted.
pub open spec fn accepted_before(nodes: Seq<Ipid>, k: int) -> bool {
    forall|j: int| 0 <= j < k ==> entry_accepted(nodes, j)
}

/// Entry `k` is the first that is refused.
pub open spec fn first_refused(nodes: Seq<Ipid>, k: int) -> bool {
    0 <= k < nodes.len() && accepted_before(nodes, k) && !entry_accepted(nodes, k)
}

/// Why entry `k` is refused: its id does not read, or is not `k + 1`, or
/// its address does not read.
pub open spec fn refusal(nodes: Seq<Ipid>, k: int) -> Seq<char> {
    if spec_parse_u16(nodes[k].id@) is Err {
        msg_bad_id()
    } else if !id_in_order(nodes, k) {
        msg_out_of_order()
    } else {
        msg_bad_addr()
    }
}

/// The address book of the first `k` entries: id `i + 1` to the address of
/// entry `i`.
pub open spec fn address_book(nodes: Seq<Ipid>, k: int) -> Map<u16, SocketAddr> {
    Map::new(
        |id: u16| 1 <= id <= k,
        |id: u16| spec_parse_socketaddr(nodes[id - 1].ip@)->Ok_0,
    )
}

/// What reading the node list gives: the address book when every entry is
/// accepted, else the refusal of the first entry that is not.
pub open spec fn sockets_outcome(nodes: Seq<Ipid>) -> Result<Map<u16, SocketAddr>, Seq<char>> {
    if accepted_before(nodes, nodes.len() as int) {
        Ok(address_book(nodes, nodes.len() as int))
    } else {
        Err(refusal(nodes, choose|k: int| first_refused(nodes, k)))
    }
}

/// The inputs on which reading the node list does not panic: the address of
/// the first entry whose id is in order but that is not accepted has the
/// shape that `parse_socketaddr` needs, and the id counter never passes
/// 65535.
pub open spec fn sockets_readable(nodes: Seq<Ipid>) -> bool {
    &&& forall|k: int|
        #![trigger id_in_order(nodes, k)]
        0 <= k < nodes.len() && accepted_before(nodes, k) && id_in_order(nodes, k)
            ==> socket_shape_ok(nodes[k].ip@)
    &&& !(nodes.len() >= 0xffff && accepted_before(nodes, 0xffff))
}

proof fn lemma_first_refused_unique(nodes: Seq<Ipid>, k: int)
    requires
        first_refused(nodes, k),
    ensures
        (choose|j: int| first_refused(nodes, j)) == k,
{
    let j = choose|j: int| first_refused(nodes, j);
    assert(first_refused(nodes, j));
    if j < k {
        assert(entry_accepted(nodes, j));
    } else if k < j {
        assert(entry_accepted(nodes, k));
    }
}

/// A node list written canonically is accepted whole: when entry `k` has
/// the id `k + 1` in decimal and the canonical text of an address, reading
/// the list does not panic and gives the book from each id to its address.
pub proof fn lemma_canonical_list_accepted(nodes: Seq<Ipid>, addrs: Seq<SocketAddr>)
    requires
        nodes.len() == addrs.len(),
        nodes.len() < 0xffff,
        forall|k: int|
            0 <= k < nodes.len() ==> (#[trigger] nodes[k]).id@ == decimal((k + 1) as nat)
                && nodes[k].ip@ == socket_text(addrs[k]),
    ensures
        sockets_readable(nodes),
        sockets_outcome(nodes) == Ok::<Map<u16, SocketAddr>, Seq<char>>(
            Map::new(|id: u16| 1 <= id <= nodes.len(), |id: u16| addrs[id - 1]),
        ),
{
    assert forall|k: int| 0 <= k < nodes.len() implies entry_accepted(nodes, k) by {
        assert(nodes[k].id@ == decimal((k + 1) as nat));
        lemma_parse_decimal((k + 1) as nat, 0xffff);
        lemma_socket_text_round_trip(addrs[k]);
    }
    assert(accepted_before(nodes, nodes.len() as int));
    assert forall|k: int|
        0 <= k < nodes.len() && accepted_before(nodes, k) && #[trigger] id_in_order(
            nodes,
            k,
        ) implies socket_shape_ok(nodes[k].ip@) by {
        assert(entry_accepted(nodes, k));
    }
    assert(address_book(nodes, nodes.len() as int) =~= Map::new(
        |id: u16| 1 <= id <= nodes.len(),
        |id: u16| addrs[id - 1],
    )) by {
        assert forall|id: u16| 1 <= id <= nodes.len() implies #[trigger] address_book(
            nodes,
            nodes.len() as int,
        )[id] == addrs[id - 1] by {
            lemma_socket_text_round_trip(addrs[id - 1]);
        }
    }
}

/// A message of the node-list reader.
fn message(s: &str) -> (r: String)
    ensures
        r@ == s@,
{
    s.to_string()
}

/// Fills `m` with every node of `nodelist` but `id`, each mapped to `value`.
fn peer_index(nodelist: &HashMap<u16, SocketAddr>, id: u16, value: u64) -> (m: HashMap<u16, u64>)
    ensures
        m@ == peer_map(nodelist@, id, value),
{
    let mut m: HashMap<u16, u64> = HashMap::new();
    let ghost mut seen: Seq<u16> = Seq::empty();
    let keys = nodelist.keys();
    let ghost all: Seq<u16> = keys.remaining().unref();
    assert(all.to_set() == nodelist@.dom());
    for k in it: keys
        invariant
            it.seq().unref() == all,
            seen == all.take(it.index()),
            all.to_set() == nodelist@.dom(),
            m@ == Map::new(|x: u16| seen.contains(x) && x != id, |x: u16| value),
    {
        assert(*k == all[it.index()]);
        let ghost old_seen = seen;
        if *k != id {
            m.insert(*k, value);
        }
        proof {
            assert(all.take(it.index() + 1) =~= seen.push(*k));
            seen = seen.push(*k);
        }
        assert forall|x: u16| #[trigger] seen.contains(x) <==> (old_seen.contains(x) || x == *k) by {
            if old_seen.contains(x) {
                let j = choose|j: int| 0 <= j < old_seen.len() && old_seen[j] == x;
                assert(seen[j] == x);
            }
            if x == *k {
                assert(seen[seen.len() - 1] == x);
            }
        }
        assert(m@ =~= Map::new(|x: u16| seen.contains(x) && x != id, |x: u16| value));
    }
    assert(seen =~= all);
    assert(m@ =~= peer_map(nodelist@, id, value));
    m
}

/// Whether `s` has the shape that `parse_socketaddr` needs.
pub fn has_socket_shape(s: &str) -> (ok: bool)
    ensures
        ok == socket_shape_ok(s@),
{
    let chars = chars_of(s);
    let segs = split_chars(&chars, '.');
    let n = segs.len();
    proof {
        lemma_split_nonempty(chars@, '.');
    }
    if n < 4 {
        return false;
    }
    let parts = split_chars(&segs[n - 1], ':');
    parts.len() >= 2
}

/// Whether reading the node list `nodes` goes without a panic.
pub fn readable_node_list(nodes: &Vec<Ipid>) -> (ok: bool)
    ensures
        ok == sockets_readable(nodes@),
{
    let n = nodes.len();
    let mut i: usize = 0;
    while i < n
        invariant
            n == nodes@.len(),
            i <= n,
            i < 0xffff,
            accepted_before(nodes@, i as int),
            forall|k: int|
                #![trigger id_in_order(nodes@, k)]
                0 <= k < i && accepted_before(nodes@, k) && id_in_order(nodes@, k)
                    ==> socket_shape_ok(nodes@[k].ip@),
        decreases n - i,
    {
        let ipid = &nodes[i];
        let in_order = match parse_u16(&chars_of(ipid.id.as_str())) {
            Ok(v) => v as usize == i + 1,
            Err(_) => false,
        };
        if !in_order {
            assert(!entry_accepted(nodes@, i as int));
            assert forall|k: int|
                0 <= k < nodes@.len() && accepted_before(nodes@, k) && #[trigger] id_in_order(
                    nodes@,
                    k,
                ) implies socket_shape_ok(nodes@[k].ip@) by {
                if k > i {
                    assert(entry_accepted(nodes@, i as int));
                }
            }
            assert(!accepted_before(nodes@, 0xffff) || nodes@.len() < 0xffff) by {
                if nodes@.len() >= 0xffff && accepted_before(nodes@, 0xffff) {
                    assert(entry_accepted(nodes@, i as int));
                }
            }
            return true;
        }
        assert(id_in_order(nodes@, i as int));
        if !has_socket_shape(ipid.ip.as_str()) {
            return false;
        }
        let parsed = Node::parse_socketaddr(ipid.ip.as_str());
        if parsed.is_err() {
            assert(!entry_accepted(nodes@, i as int));
            assert forall|k: int|
                0 <= k < nodes@.len() && accepted_before(nodes@, k) && #[trigger] id_in_order(
                    nodes@,
                    k,
                ) implies socket_shape_ok(nodes@[k].ip@) by {
                if k > i {
                    assert(entry_accepted(nodes@, i as int));
                }
            }
            assert(!accepted_before(nodes@, 0xffff) || nodes@.len() < 0xffff) by {
                if nodes@.len() >= 0xffff && accepted_before(nodes@, 0xffff) {
                    assert(entry_accepted(nodes@, i as int));
                }
            }
            return true;
        }
        assert(entry_accepted(nodes@, i as int));
        assert(accepted_before(nodes@, i + 1));
        if i + 1 == 0xffff {
            assert(nodes@.len() >= 0xffff);
            return false;
        }
        i = i + 1;
    }
    assert(nodes@.len() < 0xffff);
    true
}

impl Node {
    /// Builds the cluster that `config` describes on this one server: one
    /// node per configured entry, all sharing the node list, the election
    /// timeout range and the heartbeat interval.
    pub fn insert_node_on_single_server(config: Configure) -> (r: Result<Vec<Node>, String>)
        requires
            sockets_readable(config.nodes@),
            sockets_outcome(config.nodes@) is Ok ==> config.min_election_timeout
                < config.max_election_timeout,
        ensures
            match r {
                Ok(cluster) => {
                    &&& sockets_outcome(config.nodes@) is Ok
                    &&& exists|u: UniformRange|
                        {
                            &&& u.low() == config.min_election_timeout
                            &&& u.high() == config.max_election_timeout
                            &&& is_cluster(
                                cluster@,
                                sockets_outcome(config.nodes@)->Ok_0,
                                u,
                                config.heartbeat,
                            )
                        }
                },
                Err(e) => sockets_outcome(config.nodes@) == Err::<Map<u16, SocketAddr>, Seq<char>>(
                    e@,
                ),
            },
    {
        let nodelist = match Node::return_sockets(&config.nodes) {
            Ok(map) => map,
            Err(string) => return Err(string),
        };
        let uniform = Node::get_fixed_uniform(&config);
        let cluster = Node::create_nodes(nodelist, &uniform, config.heartbeat);
        Ok(cluster)
    }

    /// Reads the node list: entry `i` must have id `i + 1` and an address of
    /// the form `a.b.c.d:port`. Answers the address book, or the reason why
    /// the first refused entry was refused.
    pub fn return_sockets(nodes: &Vec<Ipid>) -> (r: Result<HashMap<u16, SocketAddr>, String>)
        requires
            sockets_readable(nodes@),
        ensures
            match r {
                Ok(m) => sockets_outcome(nodes@) == Ok::<Map<u16, SocketAddr>, Seq<char>>(m@),
                Err(e) => sockets_outcome(nodes@) == Err::<Map<u16, SocketAddr>, Seq<char>>(e@),
            },
    {
        let mut idip_map: HashMap<u16, SocketAddr> = HashMap::new();
        let mut counter: u16 = 1;
        let mut i: usize = 0;
        let n = nodes.len();
        assert(idip_map@ =~= address_book(nodes@, 0));
        while i < n
            invariant
                n == nodes@.len(),
                i <= n,
                counter as int == i + 1,
                sockets_readable(nodes@),
                accepted_before(nodes@, i as int),
                idip_map@ == address_book(nodes@, i as int),
            decreases n - i,
        {
            let ipid = &nodes[i];
            let id_chars = chars_of(ipid.id.as_str());
            let id_u16: u16 = match parse_u16(&id_chars) {
                Ok(id_u16) => id_u16,
                Err(_) => {
                    assert(spec_parse_u16(nodes@[i as int].id@) is Err);
                    assert(!entry_accepted(nodes@, i as int));
                    proof {
                        lemma_first_refused_unique(nodes@, i as int);
                    }
                    return Err(message(
                        "err occured in return sockets: unable to parse String to u16 : {} => u16",
                    ));
                },
            };
            if id_u16 != counter {
                assert(spec_parse_u16(nodes@[i as int].id@) == Ok::<u16, IntErrorKind>(id_u16));
                assert(!id_in_order(nodes@, i as int));
                assert(!entry_accepted(nodes@, i as int));
                proof {
                    lemma_first_refused_unique(nodes@, i as int);
                }
                return Err(message(
                    "config filr error: node is not declared in ascending order. please check your config file",
                ));
            }
            assert(id_in_order(nodes@, i as int));
            let socket = match Node::parse_socketaddr(ipid.ip.as_str()) {
                Ok(socket) => socket,
                Err(_) => {
                    proof {
                        lemma_first_refused_unique(nodes@, i as int);
                    }
                    return Err(message("Err ocurred when parsing String into SocketAddr "));
                },
            };
            assert(entry_accepted(nodes@, i as int));
            assert(accepted_before(nodes@, i + 1));
            idip_map.insert(id_u16, socket);
            assert(idip_map@ =~= address_book(nodes@, i + 1));
            assert(counter < 0xffff) by {
                if counter == 0xffff {
                    assert(accepted_before(nodes@, 0xffff));
                }
            }
            counter += 1;
            i = i + 1;
        }
        Ok(idip_map)
    }

    /// The election timeout range of the configuration.
    pub fn get_fixed_uniform(config: &Configure) -> (u: UniformRange)
        requires
            config.min_election_timeout < config.max_election_timeout,
        ensures
            u.low() == config.min_election_timeout,
            u.high() == config.max_election_timeout,
    {
        UniformRange::new(config.min_election_timeout, config.max_election_timeout).unwrap()
    }

    /// One node per id of `nodelist`, each a follower that knows the whole
    /// node list, with next index 1 and match index 0 for every peer.
    pub fn create_nodes(
        nodelist: HashMap<u16, SocketAddr>,
        uniform: &UniformRange,
        heartbeat: u64,
    ) -> (cluster: Vec<Node>)
        ensures
            is_cluster(cluster@, nodelist@, *uniform, heartbeat),
    {
        let mut cluster: Vec<Node> = Vec::new();
        let keys = nodelist.keys();
        let ghost all: Seq<u16> = keys.remaining().unref();
        assert(all.to_set() == nodelist@.dom());
        assert(all.no_duplicates());
        assert(all.len() == nodelist@.dom().len());
        for id in it: keys
            invariant
                it.seq().unref() == all,
                all.to_set() == nodelist@.dom(),
                all.no_duplicates(),
                cluster@.len() == it.index(),
                forall|j: int|
                    0 <= j < it.index() ==> #[trigger] cluster@[j]@ == cluster_member(
                        all[j],
                        nodelist@,
                        *uniform,
                        heartbeat,
                    ),
        {
            assert(*id == all[it.index()]);
            let next_index = peer_index(&nodelist, *id, 1);
            let match_index = peer_index(&nodelist, *id, 0);
            let node = Node::new(*id, next_index, match_index, &nodelist, uniform, heartbeat);
            cluster.push(node);
        }
        proof {
            assert forall|i: int| 0 <= i < cluster@.len() implies nodelist@.contains_key(
                #[trigger] cluster@[i]@.id,
            ) by {
                assert(cluster@[i]@.id == all[i]);
                assert(all.to_set().contains(all[i]));
            }
            assert forall|id: u16| #[trigger] nodelist@.contains_key(id) implies exists|i: int|
                0 <= i < cluster@.len() && #[trigger] cluster@[i]@.id == id by {
                assert(all.to_set().contains(id));
                let i = choose|i: int| 0 <= i < all.len() && all[i] == id;
                assert(cluster@[i]@.id == id);
            }
            assert forall|i: int, j: int|
                0 <= i < cluster@.len() && 0 <= j < cluster@.len() && i != j implies #[trigger] cluster@[i]@.id
                != #[trigger] cluster@[j]@.id by {
                assert(cluster@[i]@.id == all[i]);
                assert(cluster@[j]@.id == all[j]);
            }
        }
        cluster
    }

    /// Reads an IPv4 socket address written `a.b.c.d:port`.
    pub fn parse_socketaddr(socket_string: &str) -> (r: Result<SocketAddr, IntErrorKind>)
        requires
            socket_shape_ok(socket_string@),
        ensures
            r == spec_parse_socketaddr(socket_string@),
    {
        let chars = chars_of(socket_string);
        let ip_segs = split_chars(&chars, '.');
        let n = ip_segs.len();
        proof {
            lemma_split_nonempty(chars@, '.');
        }
        let last_seg_and_port = split_chars(&ip_segs[n - 1], ':');
        let fourth: &Vec<char> = if n == 4 {
            &last_seg_and_port[0]
        } else {
            &ip_segs[3]
        };
        let a = match parse_u8(&ip_segs[0]) {
            Ok(v) => v,
            Err(e) => return Err(e),
        };
        let b = match parse_u8(&ip_segs[1]) {
            Ok(v) => v,
            Err(e) => return Err(e),
        };
        let c = match parse_u8(&ip_segs[2]) {
            Ok(v) => v,
            Err(e) => return Err(e),
        };
        let d = match parse_u8(fourth) {
            Ok(v) => v,
            Err(e) => return Err(e),
        };
        let port = match parse_u16(&last_seg_and_port[1]) {
            Ok(v) => v,
            Err(e) => return Err(e),
        };
        Ok(SocketAddr { ip: (a, b, c, d), port })
    }

    /// A follower in term 0 with an empty log, knowing `nodelist`.
    pub fn new(
        id: u16,
        next_index: HashMap<u16, u64>,
        match_index: HashMap<u16, u64>,
        nodelist: &HashMap<u16, SocketAddr>,
        uniform: &UniformRange,
        heart_milisec: u64,
    ) -> (node: Node)
        ensures
            node@ == initial_node(
                id,
                next_index@,
                match_index@,
                nodelist@,
                *uniform,
                heart_milisec,
            ),
    {
        Node {
            role: Role::Follower,
            id: id,
            node_list: nodelist.clone(),
            heartbeat: heart_milisec,
            uniform: *uniform,
            election_timout: None,
            current_term: 0,
            voted_for: None,
            log: Vec::new(),
            commit_index: 0,
            last_applied: 0,
            next_index,
            match_index,
        }
    }

    fn generate_election_timout(&self) -> (t: u64)
        ensures
            self@.uniform.low() <= t < self@.uniform.high(),
    {
        self.uniform.sample()
    }

    /// A fresh election timeout, drawn uniformly from the configured range.
    pub fn get_election_timout(&self) -> (t: u64)
        ensures
            self@.uniform.low() <= t < self@.uniform.high(),
    {
        self.generate_election_timout()
    }

    /// The heartbeat interval, in milliseconds.
    pub fn get_heartbeat(&self) -> (h: u64)
        ensures
            h == self@.heartbeat,
    {
        self.heartbeat
    }

    /// The ids and addresses of every node of the cluster.
    pub fn get_nodelist(&self) -> (l: &HashMap<u16, SocketAddr>)
        ensures
            l@ == self@.node_list,
    {
        &self.node_list
    }

    /// Whether the node currently leads.
    pub fn is_leader(&self) -> (b: bool)
        ensures
            b == (self@.role == Role::Leader),
    {
        match self.role {
            Role::Leader => true,
            _ => false,
        }
    }

    /// The node's id.
    pub fn this_nodeid(&self) -> (id: u16)
        ensures
            id == self@.id,
    {
        self.id
    }

    /// The node's current term.
    pub fn this_term(&self) -> (t: u64)
        ensures
            t == self@.current_term,
    {
        self.current_term
    }

    /// The index of the log entry just before the next one to send to
    /// `id`.
    pub fn node_prev_index(&self, id: u16) -> (i: u64)
        requires
            self@.next_index.contains_key(id),
            self@.next_index[id] >= 1,
        ensures
            i == self@.next_index[id] - 1,
    {
        let nextindex: u64 = *self.next_index.get(&id).expect("get next index err");
        nextindex - 1
    }

    /// The term of the log entry just before the next one to send to `id`.
    pub fn node_prev_term(&self, nodeid: u16) -> (t: u64)
        requires
            self@.next_index.contains_key(nodeid),
            self@.next_index[nodeid] >= 1,
            self@.next_index[nodeid] - 1 < self@.log.len(),
        ensures
            t == self@.log[self@.next_index[nodeid] - 1].term(),
    {
        let prev = self.node_prev_index(nodeid);
        let len = self.log.len();
        assert(prev < len);
        let logindex = prev as usize;
        assert(logindex == prev);
        assert(self.log@[logindex as int] == self@.log[self@.next_index[nodeid] - 1]);
        self.log[logindex].read_term()
    }

    /// The index of the highest entry known to be committed.
    pub fn leader_commit(&self) -> (c: u64)
        ensures
            c == self@.commit_index,
    {
        self.commit_index
    }
}

/// The heartbeat that `node`, as leader, sends to `peer`: its term and id,
/// the index and term of the entry just before the next one `peer` needs,
/// and its commit index.
pub open spec fn heartbeat_for(node: NodeView, peer: u16) -> AppendEntriesView {
    heartbeat_view(
        node.current_term,
        node.id,
        (node.next_index[peer] - 1) as u64,
        node.log[node.next_index[peer] - 1].term(),
        node.commit_index,
    )
}

/// Every member of the node list has a next index of at least 1 whose
/// predecessor is in the log.
pub open spec fn heartbeat_ready(node: NodeView) -> bool {
    forall|peer: u16|
        #[trigger] node.node_list.contains_key(peer) ==> {
            &&& node.next_index.contains_key(peer)
            &&& node.next_index[peer] >= 1
            &&& node.next_index[peer] - 1 < node.log.len()
        }
}

/// The heartbeats of `node` to every member of its node list, in the order
/// in which the list is walked.
pub fn send_heartbeat(node: &Node) -> (rpcs: Vec<AppendEntriesRpcRequest>)
    requires
        heartbeat_ready(node@),
    ensures
        exists|order: Seq<u16>|
            {
                &&& order.to_set() == node@.node_list.dom()
                &&& order.no_duplicates()
                &&& order.len() == rpcs@.len()
                &&& forall|i: int|
                    0 <= i < rpcs@.len() ==> #[trigger] rpcs@[i]@ == heartbeat_for(
                        node@,
                        order[i],
                    )
            },
{
    let mut rpcs: Vec<AppendEntriesRpcRequest> = Vec::new();
    let nodelist = node.get_nodelist();
    let keys = nodelist.keys();
    let ghost all: Seq<u16> = keys.remaining().unref();
    assert(all.to_set() == node@.node_list.dom());
    assert(all.no_duplicates());
    assert(all.len() == node@.node_list.dom().len());
    for nodeid in it: keys
        invariant
            it.seq().unref() == all,
            all.to_set() == node@.node_list.dom(),
            heartbeat_ready(node@),
            rpcs@.len() == it.index(),
            forall|j: int|
                0 <= j < it.index() ==> #[trigger] rpcs@[j]@ == heartbeat_for(node@, all[j]),
    {
        assert(*nodeid == all[it.index()]);
        assert(all.to_set().contains(*nodeid));
        assert(node@.node_list.contains_key(*nodeid));
        let heartbeatrpc = AppendEntriesRpcRequest::create_heartbeatrpc(
            node.this_term(),
            node.this_nodeid(),
            node.node_prev_index(*nodeid),
            node.node_prev_term(*nodeid),
            node.leader_commit(),
        );
        rpcs.push(heartbeatrpc);
    }
    assert(all.len() == rpcs@.len());
    rpcs
}

} // verus!
