use vstd::prelude::*;

verus! {

/// The messages that nodes exchange.
#[derive(Clone, Debug, PartialEq, Eq)]
pub enum Command {
    /// RequestVote RPC.
    RV,
    /// AppendEntries RPC.
    AE,
    /// InstallSnapshot RPC.
    IS,
    Print { msg: String },
    Ping,
    Pong,
    Shutdown,
}

} // verus!

verus! {

/// Capacity of a framed packet, in bytes.
pub const MAX_SIZE: usize = 65536;

/// Width of the length prefix that heads every packet.
pub const PREFIX_LEN: usize = 4;

#[verifier::external_type_specification]
#[verifier::external_body]
#[verifier::reject_recursive_types(T)]
pub struct ExHeaplessVec<T, const N: usize>(heapless::Vec<T, N>);

/// The bytes that a packet buffer holds, in order.
pub uninterp spec fn packet_bytes(v: heapless::Vec<u8, MAX_SIZE>) -> Seq<u8>;

/// `heapless::Vec::new`: an empty buffer.
#[verifier::external_body]
fn packet_new() -> (v: heapless::Vec<u8, MAX_SIZE>)
    ensures
        packet_bytes(v) == Seq::<u8>::empty(),
{
    heapless::Vec::new()
}

/// `heapless::Vec::extend_from_slice`: appends `other` when the result fits
/// in the capacity and answers `Ok`, else leaves the buffer alone and
/// answers `Err`.
#[verifier::external_body]
fn packet_extend(v: &mut heapless::Vec<u8, MAX_SIZE>, other: &[u8]) -> (r: Result<(), ()>)
    ensures
        r is Ok <==> packet_bytes(*old(v)).len() + other@.len() <= MAX_SIZE,
        r is Ok ==> packet_bytes(*final(v)) == packet_bytes(*old(v)) + other@,
        r is Err ==> packet_bytes(*final(v)) == packet_bytes(*old(v)),
{
    v.extend_from_slice(other)
}

/// The big-endian bytes of `n`, most significant first.
pub open spec fn be_bytes(n: u32) -> Seq<u8> {
    seq![
        (n / 0x100_0000) as u8,
        ((n / 0x1_0000) % 0x100) as u8,
        ((n / 0x100) % 0x100) as u8,
        (n % 0x100) as u8,
    ]
}

/// The packet that carries `payload`: its length as four big-endian bytes,
/// then the payload itself.
pub open spec fn framed(payload: Seq<u8>) -> Seq<u8> {
    be_bytes(payload.len() as u32) + payload
}

fn u32_to_be_bytes(n: u32) -> (b: [u8; 4])
    ensures
        b@ == be_bytes(n),
        b@[0] == ((n >> 24u32) & 0xffu32) as u8,
        b@[1] == ((n >> 16u32) & 0xffu32) as u8,
        b@[2] == ((n >> 8u32) & 0xffu32) as u8,
        b@[3] == (n & 0xffu32) as u8,
{
    let b: [u8; 4] = [
        (n / 0x100_0000) as u8,
        ((n / 0x1_0000) % 0x100) as u8,
        ((n / 0x100) % 0x100) as u8,
        (n % 0x100) as u8,
    ];
    assert(b@ =~= be_bytes(n));
    proof {
        lemma_be_bytes_shifts(n);
    }
    b
}

/// The bytes of `be_bytes(n)` are the bytes of `n` from the most
/// significant down, as shifts and masks give them.
pub proof fn lemma_be_bytes_shifts(n: u32)
    ensures
        be_bytes(n).len() == 4,
        be_bytes(n)[0] == ((n >> 24u32) & 0xffu32) as u8,
        be_bytes(n)[1] == ((n >> 16u32) & 0xffu32) as u8,
        be_bytes(n)[2] == ((n >> 8u32) & 0xffu32) as u8,
        be_bytes(n)[3] == (n & 0xffu32) as u8,
{
    assert(((n / 0x100_0000) as u8) == (((n >> 24u32) & 0xffu32) as u8)) by (bit_vector);
    assert((((n / 0x1_0000) % 0x100) as u8) == (((n >> 16u32) & 0xffu32) as u8)) by (bit_vector);
    assert((((n / 0x100) % 0x100) as u8) == (((n >> 8u32) & 0xffu32) as u8)) by (bit_vector);
    assert(((n % 0x100) as u8) == ((n & 0xffu32) as u8)) by (bit_vector);
}

/// Frames an already serialised command: the packet holds the payload's
/// length as four big-endian bytes, followed by the payload.
pub fn encode(serial_cmd: &[u8]) -> (r: Result<heapless::Vec<u8, MAX_SIZE>, String>)
    requires
        serial_cmd@.len() + PREFIX_LEN <= MAX_SIZE,
    ensures
        r matches Ok(packet) && packet_bytes(packet) == framed(serial_cmd@),
        r matches Ok(packet) && ({
            let bytes = packet_bytes(packet);
            let len = serial_cmd@.len() as u32;
            &&& bytes.len() == PREFIX_LEN + serial_cmd@.len()
            &&& bytes[0] == ((len >> 24u32) & 0xffu32) as u8
            &&& bytes[1] == ((len >> 16u32) & 0xffu32) as u8
            &&& bytes[2] == ((len >> 8u32) & 0xffu32) as u8
            &&& bytes[3] == (len & 0xffu32) as u8
            &&& bytes.skip(PREFIX_LEN as int) == serial_cmd@
        }),
{
    let len = serial_cmd.len() as u32;
    let mut packet = packet_new();
    let prefix = u32_to_be_bytes(len);
    let r1 = packet_extend(&mut packet, prefix.as_slice());
    let r2 = packet_extend(&mut packet, serial_cmd);
    assert(r1 is Ok && r2 is Ok);
    proof {
        lemma_framed_is_big_endian(serial_cmd@);
    }
    Ok(packet)
}

/// The number that four bytes spell in big-endian order.
pub open spec fn be_value(b: Seq<u8>) -> nat {
    (b[0] as nat) * 0x100_0000 + (b[1] as nat) * 0x1_0000 + (b[2] as nat) * 0x100 + (b[3] as nat)
}

/// A packet splits back into its parts: its first four bytes spell the
/// length of the payload, and the payload follows them.
pub proof fn lemma_frame_splits(payload: Seq<u8>)
    requires
        payload.len() <= u32::MAX,
    ensures
        framed(payload).len() == PREFIX_LEN + payload.len(),
        be_value(framed(payload).take(PREFIX_LEN as int)) == payload.len(),
        framed(payload).skip(PREFIX_LEN as int) == payload,
{
    let n = payload.len() as u32;
    let f = framed(payload);
    assert(f.take(4) =~= be_bytes(n));
    assert(f.skip(4) =~= payload);
    let b = be_bytes(n);
    assert(be_value(b) == n) by (nonlinear_arith)
        requires
            b[0] as nat == n / 0x100_0000,
            b[1] as nat == (n / 0x1_0000) % 0x100,
            b[2] as nat == (n / 0x100) % 0x100,
            b[3] as nat == n % 0x100,
            be_value(b) == (b[0] as nat) * 0x100_0000 + (b[1] as nat) * 0x1_0000 + (b[2] as nat)
                * 0x100 + (b[3] as nat),
    ;
}

/// The body of a packet: the bytes after the four-byte length prefix, as
/// many as the prefix says, when the packet holds them all.
pub open spec fn spec_unframe(packet: Seq<u8>) -> Option<Seq<u8>> {
    if packet.len() >= PREFIX_LEN && be_value(packet.take(PREFIX_LEN as int)) <= packet.len()
        - PREFIX_LEN {
        Some(
            packet.subrange(
                PREFIX_LEN as int,
                PREFIX_LEN + be_value(packet.take(PREFIX_LEN as int)),
            ),
        )
    } else {
        None
    }
}

/// Reads the body out of a packet: the bytes after the length prefix, as
/// many as the prefix says. Answers nothing when the packet is shorter than
/// its prefix or than the length it announces.
pub fn unframe(packet: &[u8]) -> (body: Option<Vec<u8>>)
    ensures
        match spec_unframe(packet@) {
            Some(b) => body matches Some(v) && v@ == b,
            None => body is None,
        },
        body is Some <==> packet@.len() >= 4 && (packet@[0] as int) * 0x100_0000 + (packet@[1] as int)
            * 0x1_0000 + (packet@[2] as int) * 0x100 + (packet@[3] as int) <= packet@.len() - 4,
        body matches Some(v) ==> v@ == packet@.subrange(
            4,
            4 + (packet@[0] as int) * 0x100_0000 + (packet@[1] as int) * 0x1_0000 + (packet@[2] as int)
                * 0x100 + (packet@[3] as int),
        ),
{
    let len = packet.len();
    if len < PREFIX_LEN {
        return None;
    }
    let n: u64 = (packet[0] as u64) * 0x100_0000 + (packet[1] as u64) * 0x1_0000 + (
    packet[2] as u64) * 0x100 + (packet[3] as u64);
    assert(n == be_value(packet@.take(4)));
    if n > (len - PREFIX_LEN) as u64 {
        return None;
    }
    let end = PREFIX_LEN + n as usize;
    let mut body: Vec<u8> = Vec::new();
    let mut i: usize = PREFIX_LEN;
    while i < end
        invariant
            len == packet@.len(),
            PREFIX_LEN <= i <= end <= len,
            body@ == packet@.subrange(PREFIX_LEN as int, i as int),
        decreases end - i,
    {
        body.push(packet[i]);
        assert(packet@.subrange(PREFIX_LEN as int, i + 1) =~= packet@.subrange(
            PREFIX_LEN as int,
            i as int,
        ).push(packet@[i as int]));
        i = i + 1;
    }
    Some(body)
}

/// What a packet frames comes back out of it whole.
pub proof fn lemma_unframe_framed(payload: Seq<u8>)
    requires
        payload.len() <= u32::MAX,
    ensures
        spec_unframe(framed(payload)) == Some(payload),
{
    lemma_frame_splits(payload);
    let f = framed(payload);
    assert(f.subrange(4, 4 + payload.len() as int) =~= f.skip(4));
}

/// A packet starts with the payload's length in big-endian order, byte by
/// byte from the most significant, and then holds the payload.
pub proof fn lemma_framed_is_big_endian(payload: Seq<u8>)
    requires
        payload.len() <= u32::MAX,
    ensures
        ({
            let f = framed(payload);
            let len = payload.len() as u32;
            &&& f.len() == PREFIX_LEN + payload.len()
            &&& f[0] == ((len >> 24u32) & 0xffu32) as u8
            &&& f[1] == ((len >> 16u32) & 0xffu32) as u8
            &&& f[2] == ((len >> 8u32) & 0xffu32) as u8
            &&& f[3] == (len & 0xffu32) as u8
            &&& f.skip(PREFIX_LEN as int) == payload
        }),
{
    let n = payload.len() as u32;
    lemma_be_bytes_shifts(n);
    let f = framed(payload);
    assert(f[0] == be_bytes(n)[0]);
    assert(f[1] == be_bytes(n)[1]);
    assert(f[2] == be_bytes(n)[2]);
    assert(f[3] == be_bytes(n)[3]);
    assert(f.skip(4) =~= payload);
}

/// Reading a packet takes its first four bytes as a big-endian length and
/// answers that many bytes after them, when the packet holds them.
pub proof fn lemma_unframe_reads_big_endian(packet: Seq<u8>)
    ensures
        spec_unframe(packet) is Some <==> packet.len() >= 4 && (packet[0] as int) * 0x100_0000 + (
        packet[1] as int) * 0x1_0000 + (packet[2] as int) * 0x100 + (packet[3] as int) <= packet.len()
            - 4,
        spec_unframe(packet) matches Some(b) ==> b == packet.subrange(
            4,
            4 + (packet[0] as int) * 0x100_0000 + (packet[1] as int) * 0x1_0000 + (packet[2] as int)
                * 0x100 + (packet[3] as int),
        ),
{
    if packet.len() >= 4 {
        let t = packet.take(4);
        assert(t[0] == packet[0] && t[1] == packet[1] && t[2] == packet[2] && t[3] == packet[3]);
    }
}

} // verus!
