//! The decisions of the connection handshake between nodes: which peers a
//! node dials and which it waits for, the messages they exchange, how a
//! reply is read and understood, and when to give up retrying.
use vstd::prelude::*;
use vstd::arithmetic::power2::{lemma2_to64, lemma_pow2_strictly_increases, lemma_pow2_unfold, pow2};
use vstd::string::*;
use vstd::utf8::{decode_utf8, valid_utf8};

use std::collections::HashSet;

use crate::raft::random::random_u64_in;
use crate::raft::text::{
    decimal, decimal_string, is_digit, lemma_decimal_canonical, spec_parse_u16, IntErrorKind,
};

verus! {

/// What the handshake reads of one top-level member of a JSON document:
/// whether it is there, and if so the number it holds when that is an
/// unsigned 64-bit integer, and the boolean it holds when it is one.
#[derive(Debug, Clone, Copy, PartialEq, Eq)]
pub enum JsonMember {
    Absent,
    Present { as_u64: Option<u64>, as_bool: Option<bool> },
}

/// What serde_json makes of the member `key` of the document `text`, or
/// the text of its error when `text` is not JSON.
pub uninterp spec fn json_member_of(text: Seq<char>, key: Seq<char>) -> Result<JsonMember, Seq<char>>;

/// `serde_json::from_str::<Value>`, then `Value::get(key)` and, on the
/// member found, `Value::as_u64` and `Value::as_bool`. The result is a
/// function of `text` and `key` alone and is given the name
/// `json_member_of`; what it is on given texts is not stated.
#[verifier::external_body]
fn json_member(text: &str, key: &str) -> (r: Result<JsonMember, String>)
    ensures
        json_member_of(text@, key@) == match r {
            Ok(m) => Ok::<JsonMember, Seq<char>>(m),
            Err(e) => Err::<JsonMember, Seq<char>>(e@),
        },
{
    let value: serde_json::Value = match serde_json::from_str(text) {
        Ok(value) => value,
        Err(e) => return Err(e.to_string()),
    };
    match value.get(key) {
        None => Ok(JsonMember::Absent),
        Some(v) => Ok(JsonMember::Present { as_u64: v.as_u64(), as_bool: v.as_bool() }),
    }
}

/// `String::from_utf8`: the text that `bytes` encode when they are valid
/// UTF-8, else the error's message. The message's wording is std's and is
/// not stated.
#[verifier::external_body]
fn string_from_utf8(bytes: Vec<u8>) -> (r: Result<String, String>)
    ensures
        r is Ok <==> valid_utf8(bytes@),
        r matches Ok(s) ==> s@ == decode_utf8(bytes@),
{
    String::from_utf8(bytes).map_err(|e| e.to_string())
}

/// `u16::try_from(u64)`: the number when it fits in 16 bits, else the
/// error's message, whose wording is std's and is not stated.
#[verifier::external_body]
fn u64_to_u16(n: u64) -> (r: Result<u16, String>)
    ensures
        r is Ok <==> n <= 0xffff,
        r matches Ok(v) ==> v == n,
{
    u16::try_from(n).map_err(|e| e.to_string())
}

fn message(s: &str) -> (r: String)
    ensures
        r@ == s@,
{
    s.to_string()
}

fn concat(a: &str, b: &str) -> (r: String)
    ensures
        r@ == a@ + b@,
{
    let mut r = a.to_string();
    r.append(b);
    r
}

pub open spec fn msg_id_missing() -> Seq<char> {
    "id not found in json data ."@
}

pub open spec fn msg_not_u64() -> Seq<char> {
    "parse u64 err"@
}

pub open spec fn msg_id_too_big() -> Seq<char> {
    "TryFromIntError occured during parsing u16"@
}

pub open spec fn msg_utf8() -> Seq<char> {
    "Failed to parse id cause e : "@
}

pub open spec fn msg_json() -> Seq<char> {
    "Failed to parse json : "@
}

pub open spec fn msg_no_admission() -> Seq<char> {
    "None value detect in check_response"@
}

pub open spec fn msg_refused() -> Seq<char> {
    "wrong admission detected om check response."@
}

pub open spec fn msg_not_bool() -> Seq<char> {
    "parse bool err detected om check response."@
}

pub open spec fn msg_no_u64() -> Seq<char> {
    "None value return  in parsing to u64."@
}

pub open spec fn msg_retries_exhausted() -> Seq<char> {
    "cannot establish connection! at clousure of initialize_connection. "@
}

/// What `read_json` answers for `bytes`, given what serde_json makes of
/// the decoded text: the member, or the decoding or parsing error behind
/// its prefix.
pub open spec fn read_json_outcome(bytes: Seq<u8>, key: Seq<char>, r: Result<JsonMember, String>) -> bool {
    if !valid_utf8(bytes) {
        r matches Err(e) && e@.len() >= msg_utf8().len() && e@.take(msg_utf8().len() as int)
            == msg_utf8()
    } else {
        match json_member_of(decode_utf8(bytes), key) {
            Ok(m) => r == Ok::<JsonMember, String>(m),
            Err(t) => r matches Err(e) && e@ == msg_json() + t,
        }
    }
}

/// What the handshake answers for the member `id`: the id when it is a
/// number that fits in 16 bits.
pub open spec fn id_outcome(member: JsonMember) -> Result<u16, Seq<char>> {
    match member {
        JsonMember::Absent => Err(msg_id_missing()),
        JsonMember::Present { as_u64, .. } => match as_u64 {
            None => Err(msg_not_u64()),
            Some(n) => if n <= 0xffff {
                Ok(n as u16)
            } else {
                Err(msg_id_too_big())
            },
        },
    }
}

/// What the handshake answers for the member `admission`: accepted only
/// when it is `true`.
pub open spec fn admission_outcome(member: JsonMember) -> Result<(), Seq<char>> {
    match member {
        JsonMember::Absent => Err(msg_no_admission()),
        JsonMember::Present { as_bool, .. } => match as_bool {
            Some(true) => Ok(()),
            Some(false) => Err(msg_refused()),
            None => Err(msg_not_bool()),
        },
    }
}

/// The request that a node sends when it dials a peer: `{"id":N}` and a
/// newline.
pub open spec fn id_request_text(id: u16) -> Seq<char> {
    "{\"id\":"@ + decimal(id as nat) + "}\n"@
}

/// The answer of the dialled node: `{"admission": true}` or
/// `{"admission": false}`, and a newline.
pub open spec fn admission_text(admitted: bool) -> Seq<char> {
    if admitted {
        "{\"admission\": true}\n"@
    } else {
        "{\"admission\": false}\n"@
    }
}

/// Decodes `bytes` as UTF-8 and parses them as JSON, answering the member
/// `key` of the document.
pub fn read_json(bytes: Vec<u8>, key: &str) -> (r: Result<JsonMember, String>)
    ensures
        read_json_outcome(bytes@, key@, r),
{
    let json = match string_from_utf8(bytes) {
        Ok(string) => string,
        Err(e) => {
            let msg = concat("Failed to parse id cause e : ", e.as_str());
            assert(msg@.take(msg_utf8().len() as int) =~= msg_utf8());
            return Err(msg);
        },
    };
    match json_member(json.as_str(), key) {
        Ok(member) => Ok(member),
        Err(e) => Err(concat("Failed to parse json : ", e.as_str())),
    }
}

/// The id that the member `id` of a request holds.
pub fn id_from_member(member: JsonMember) -> (r: Result<u16, String>)
    ensures
        match id_outcome(member) {
            Ok(id) => r == Ok::<u16, String>(id),
            Err(msg) => r matches Err(e) && e@ == msg,
        },
{
    match member {
        JsonMember::Absent => Err(message("id not found in json data .")),
        JsonMember::Present { as_u64, .. } => {
            let val_64 = match as_u64 {
                Some(val_64) => val_64,
                None => return Err(message("parse u64 err")),
            };
            match u64_to_u16(val_64) {
                Ok(id) => Ok(id),
                Err(_) => Err(message("TryFromIntError occured during parsing u16")),
            }
        },
    }
}

/// Reads the id that a dialling peer announces in `bytes`.
pub fn read_and_parse_id(bytes: Vec<u8>) -> (r: Result<u16, String>)
    ensures
        !valid_utf8(bytes@) ==> (r matches Err(e) && e@.len() >= msg_utf8().len() && e@.take(
            msg_utf8().len() as int,
        ) == msg_utf8()),
        valid_utf8(bytes@) ==> match json_member_of(decode_utf8(bytes@), "id"@) {
            Err(t) => r matches Err(e) && e@ == msg_json() + t,
            Ok(member) => match id_outcome(member) {
                Ok(id) => r == Ok::<u16, String>(id),
                Err(msg) => r matches Err(e) && e@ == msg,
            },
        },
{
    let v = read_json(bytes, "id")?;
    id_from_member(v)
}

/// Whether the member `admission` of an answer admits the connection.
pub fn admission_from_member(member: JsonMember) -> (r: Result<(), String>)
    ensures
        match admission_outcome(member) {
            Ok(()) => r is Ok,
            Err(msg) => r matches Err(e) && e@ == msg,
        },
{
    match member {
        JsonMember::Absent => Err(message("None value detect in check_response")),
        JsonMember::Present { as_bool, .. } => match as_bool {
            Some(true) => Ok(()),
            Some(false) => Err(message("wrong admission detected om check response.")),
            None => Err(message("parse bool err detected om check response.")),
        },
    }
}

/// The 16-bit number that a JSON value holds, given what `as_u64` made of
/// it.
pub fn parse_value_to_u16(as_u64: Option<u64>) -> (r: Result<u16, String>)
    ensures
        match as_u64 {
            None => r matches Err(e) && e@ == msg_no_u64(),
            Some(n) => if n <= 0xffff {
                r == Ok::<u16, String>(n as u16)
            } else {
                r matches Err(e) && e@.len() >= msg_utf8().len() && e@.take(
                    msg_utf8().len() as int,
                ) == msg_utf8()
            },
        },
{
    let n = match as_u64 {
        Some(n) => n,
        None => return Err(message("None value return  in parsing to u64.")),
    };
    match u64_to_u16(n) {
        Ok(id) => Ok(id),
        Err(e) => {
            let msg = concat("Failed to parse id cause e : ", e.as_str());
            assert(msg@.take(msg_utf8().len() as int) =~= msg_utf8());
            Err(msg)
        },
    }
}

/// The request that announces node `id` to the peer it dials.
pub fn id_request(id: u16) -> (s: String)
    ensures
        s@ == id_request_text(id),
        s@ == "{\"id\":"@ + decimal(id as nat) + "}\n"@,
{
    let mut s = message("{\"id\":");
    let n = decimal_string(id);
    s.append(n.as_str());
    s.append("}\n");
    s
}

/// The answer to a dialling peer: admitted or not.
pub fn admission_reply(admitted: bool) -> (s: String)
    ensures
        s@ == admission_text(admitted),
{
    if admitted {
        message("{\"admission\": true}\n")
    } else {
        message("{\"admission\": false}\n")
    }
}

/// The ids above `this_id` up to `node_len`, in increasing order.
pub open spec fn upstream_ids(this_id: u16, node_len: u16) -> Seq<u16> {
    Seq::new(
        if node_len > this_id {
            (node_len - this_id) as nat
        } else {
            0
        },
        |k: int| (this_id + 1 + k) as u16,
    )
}

/// The ids from 1 up to, not including, `this_id`.
pub open spec fn downstream_ids(this_id: u16) -> Set<u16> {
    Set::new(|k: u16| 1 <= k < this_id)
}

/// The peers that node `this_id` dials: those with a larger id, up to
/// `node_len`, in increasing order.
pub fn upstream_peers(this_id: u16, node_len: u16) -> (peers: Vec<u16>)
    requires
        this_id < 0xffff,
        node_len < 0xffff,
    ensures
        peers@ == upstream_ids(this_id, node_len),
        forall|k: u16| #[trigger] peers@.contains(k) <==> this_id < k <= node_len,
        forall|i: int, j: int| 0 <= i < j < peers@.len() ==> peers@[i] < peers@[j],
{
    let upper_min_index = this_id + 1;
    let upper_max_index = node_len;
    let mut peers: Vec<u16> = Vec::new();
    let mut i = upper_min_index;
    while i < upper_max_index + 1
        invariant
            upper_min_index == this_id + 1,
            upper_max_index == node_len,
            node_len < 0xffff,
            upper_min_index <= i,
            i <= upper_max_index + 1 || i == upper_min_index,
            peers@.len() == i - upper_min_index,
            forall|k: int| 0 <= k < peers@.len() ==> #[trigger] peers@[k] == this_id + 1 + k,
        decreases upper_max_index + 1 - i,
    {
        peers.push(i);
        i = i + 1;
    }
    assert(peers@ =~= upstream_ids(this_id, node_len));
    assert forall|k: u16| #[trigger] peers@.contains(k) <==> this_id < k <= node_len by {
        lemma_upstream_ids_exact(this_id, node_len, k);
    }
    proof {
        lemma_upstream_ids_exact(this_id, node_len, 0);
    }
    peers
}

/// The peers that dial node `this_id`: those with a smaller id.
pub fn downstream_peers(this_id: u16) -> (peers: HashSet<u16>)
    ensures
        peers@ == downstream_ids(this_id),
        forall|k: u16| #[trigger] peers@.contains(k) <==> 1 <= k < this_id,
{
    let mut peers: HashSet<u16> = HashSet::new();
    if this_id == 0 {
        assert(peers@ =~= Set::new(|j: u16| 1 <= j < this_id));
        return peers;
    }
    let mut k: u16 = 1;
    while k < this_id
        invariant
            1 <= k <= this_id,
            peers@ == Set::new(|j: u16| 1 <= j < k),
        decreases this_id - k,
    {
        peers.insert(k);
        assert(peers@ =~= Set::new(|j: u16| 1 <= j < k + 1));
        k = k + 1;
    }
    assert(peers@ =~= Set::new(|j: u16| 1 <= j < this_id));
    peers
}

/// A peer `id` announced itself: its connection is kept when it is one of
/// the peers still awaited, which it then no longer is.
pub fn receive_peer(remaining: &mut HashSet<u16>, id: u16) -> (store: bool)
    ensures
        store == old(remaining)@.contains(id),
        final(remaining)@ == old(remaining)@.remove(id),
{
    if !remaining.contains(&id) {
        assert(remaining@ =~= remaining@.remove(id));
        return false;
    }
    remaining.remove(&id);
    true
}

/// Adds a chunk read from a connection to what was read before; the
/// message is complete when a non-empty chunk ends with a newline.
pub fn accept_read_chunk(allbytes: &mut Vec<u8>, chunk: &[u8]) -> (done: bool)
    ensures
        chunk@.len() == 0 ==> final(allbytes)@ == old(allbytes)@ && !done,
        chunk@.len() > 0 ==> final(allbytes)@ == old(allbytes)@ + chunk@ && done == (chunk@.last()
            == 10),
{
    let n = chunk.len();
    if n == 0 {
        return false;
    }
    let ghost before = allbytes@;
    let mut i: usize = 0;
    while i < n
        invariant
            n == chunk@.len(),
            i <= n,
            allbytes@ == before + chunk@.take(i as int),
        decreases n - i,
    {
        allbytes.push(chunk[i]);
        assert(chunk@.take(i + 1) =~= chunk@.take(i as int).push(chunk@[i as int]));
        i = i + 1;
    }
    assert(chunk@.take(n as int) =~= chunk@);
    let end_flag: u8 = 10;
    end_flag == chunk[n - 1]
}

/// Whether one more try of the connection is allowed: refused once
/// `retry_count` reaches `max_try`, else counted. Answers the count that
/// the pause before this try is computed from.
pub fn sleep_function(max_try: u32, retry_count: &mut u32) -> (r: Result<u32, String>)
    ensures
        *old(retry_count) >= max_try ==> (r matches Err(e) && e@ == msg_retries_exhausted()
            && *final(retry_count) == *old(retry_count)),
        *old(retry_count) < max_try ==> r == Ok::<u32, String>(*old(retry_count))
            && *final(retry_count) == *old(retry_count) + 1,
{
    if *retry_count >= max_try {
        return Err(message("cannot establish connection! at clousure of initialize_connection. "));
    }
    let count = *retry_count;
    *retry_count += 1;
    Ok(count)
}

/// What a retrying loop does next: try again, or give up.
#[derive(Debug, Clone, Copy, PartialEq, Eq)]
pub enum RetryStep {
    Retry,
    GiveUp,
}

/// The step after attempt number `attempt` failed, when at most
/// `max_attempts` are made: try again while `attempt` is below the limit,
/// give up once it reaches it.
pub fn retry_step(attempt: u32, max_attempts: u32) -> (s: RetryStep)
    ensures
        s == (if attempt < max_attempts {
            RetryStep::Retry
        } else {
            RetryStep::GiveUp
        }),
{
    if attempt < max_attempts {
        RetryStep::Retry
    } else {
        RetryStep::GiveUp
    }
}

/// Counts one more round of waiting for connections, of which at most
/// `max_rounds` are allowed: give up once the count passes the limit.
pub fn next_round(rounds: &mut u32, max_rounds: u32) -> (s: RetryStep)
    requires
        *old(rounds) < u32::MAX,
    ensures
        *final(rounds) == *old(rounds) + 1,
        s == (if *final(rounds) > max_rounds {
            RetryStep::GiveUp
        } else {
            RetryStep::Retry
        }),
{
    *rounds += 1;
    if *rounds > max_rounds {
        RetryStep::GiveUp
    } else {
        RetryStep::Retry
    }
}

/// The factor by which the base delay grows before the try numbered
/// `attempt` (from 0) of dialling a peer: 2 to the power `attempt`.
pub fn retry_delay_factor(attempt: u32) -> (f: u32)
    requires
        attempt < 32,
    ensures
        f == pow2(attempt as nat),
{
    let mut f: u32 = 1;
    let mut i: u32 = 0;
    proof {
        lemma2_to64();
    }
    while i < attempt
        invariant
            i <= attempt < 32,
            f == pow2(i as nat),
            pow2(31) == 0x8000_0000,
        decreases attempt - i,
    {
        proof {
            if i < 31 {
                lemma_pow2_strictly_increases(i as nat, 31);
            }
            lemma_pow2_unfold((i + 1) as nat);
        }
        f = f * 2;
        i = i + 1;
    }
    f
}

/// The pause, in milliseconds, before a node listens or retries: drawn
/// between `min` and `max`, both included.
pub fn random_sleep_millis(min: u64, max: u64) -> (ms: u64)
    requires
        min <= max,
    ensures
        min <= ms <= max,
{
    random_u64_in(min, max)
}

/// In a cluster of nodes `1..=node_len`, every pair of distinct nodes is
/// connected exactly once: the node with the smaller id dials the other,
/// which awaits it, and neither does the reverse.
pub proof fn lemma_each_pair_connects_once(a: u16, b: u16, node_len: u16)
    requires
        1 <= a < b <= node_len,
        node_len < 0xffff,
    ensures
        upstream_ids(a, node_len).contains(b),
        downstream_ids(b).contains(a),
        !upstream_ids(b, node_len).contains(a),
        !downstream_ids(a).contains(b),
{
    assert(upstream_ids(a, node_len)[b - a - 1] == b);
}

/// A node awaits exactly the nodes of the cluster with a smaller id: ids
/// start at 1, so no id outside `1..this_id` is awaited.
pub proof fn lemma_downstream_ids_exact(this_id: u16, k: u16)
    ensures
        downstream_ids(this_id).contains(k) <==> 1 <= k && k < this_id,
{
}

/// A node dials exactly the nodes of the cluster with a larger id, each
/// once, in increasing order.
pub proof fn lemma_upstream_ids_exact(this_id: u16, node_len: u16, k: u16)
    requires
        node_len < 0xffff,
    ensures
        upstream_ids(this_id, node_len).contains(k) <==> this_id < k && k <= node_len,
        upstream_ids(this_id, node_len).no_duplicates(),
        forall|i: int, j: int|
            0 <= i < j < upstream_ids(this_id, node_len).len() ==> upstream_ids(this_id, node_len)[i]
                < upstream_ids(this_id, node_len)[j],
{
    let u = upstream_ids(this_id, node_len);
    if this_id < k && k <= node_len {
        assert(u[k - this_id - 1] == k);
    }
}

/// The request of node `id` is `{"id":`, then the standard decimal text
/// of `id` (digits only, no leading zero unless `id` is zero), then `}` and
/// a newline; the digits read back as `id`.
pub proof fn lemma_id_request_canonical(id: u16)
    ensures
        exists|d: Seq<char>|
            {
                &&& id_request_text(id) == "{\"id\":"@ + d + "}\n"@
                &&& d.len() >= 1
                &&& forall|i: int| 0 <= i < d.len() ==> is_digit(#[trigger] d[i])
                &&& (d[0] == '0' ==> d.len() == 1)
                &&& spec_parse_u16(d) == Ok::<u16, IntErrorKind>(id)
            },
{
    lemma_decimal_canonical(id as nat);
    let d = decimal(id as nat);
    assert(id_request_text(id) == "{\"id\":"@ + d + "}\n"@);
}

} // verus!
