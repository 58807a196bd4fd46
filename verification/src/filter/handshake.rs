use crate::protocol::cursor::{be_u16, suffix_from, ByteCursor};
use crate::protocol::varint::{
    decode_varint, encode_varint, lemma_decode_varint_cut, lemma_decode_varint_prefix,
    lemma_varint_round_trip, lemma_varint_size_bounds, read_varint, varint_size,
};
use vstd::prelude::*;
use vstd::utf8::{decode_utf8, encode_utf8, encode_utf8_decode_utf8, valid_utf8};

verus! {

/// Why a first packet is not a Minecraft handshake.
#[derive(Debug, Clone, Copy, PartialEq, Eq)]
pub enum HandshakeError {
    /// The packet does not start with a VarInt (the packet length).
    PacketLength,
    /// The packet length differs from the number of bytes that follow it.
    LengthMismatch,
    /// No VarInt for the packet id.
    PacketId,
    /// The packet id is not `0x00`.
    NotHandshake,
    /// No VarInt for the protocol version.
    ProtocolVersion,
    /// No VarInt for the length of the server address.
    AddressLength,
    /// The server address length is negative and its size does not exceed
    /// the read position (the position plus the length, taken as an
    /// unsigned machine word, wraps around).
    AddressLengthWraps,
    /// The server address runs past the end of the packet.
    AddressTruncated,
    /// The server address is not valid UTF-8.
    AddressNotUtf8,
    /// Fewer than two bytes are left for the server port.
    ServerPort,
    /// No VarInt for the next state.
    NextState,
    /// The next state is neither 1 (status) nor 2 (login).
    InvalidNextState,
    /// Bytes are left after the next state.
    TrailingData,
}

/// The fields of a handshake packet.
#[derive(Debug, PartialEq, Eq)]
pub struct Handshake {
    pub packet_length: i32,
    pub packet_id: i32,
    pub protocol_version: i32,
    pub server_address: String,
    pub server_port: u16,
    pub next_state: i32,
}

/// The fields of a handshake packet, the address as characters.
pub struct HandshakeView {
    pub packet_length: i32,
    pub packet_id: i32,
    pub protocol_version: i32,
    pub server_address: Seq<char>,
    pub server_port: u16,
    pub next_state: i32,
}

impl View for Handshake {
    type V = HandshakeView;

    open spec fn view(&self) -> HandshakeView {
        HandshakeView {
            packet_length: self.packet_length,
            packet_id: self.packet_id,
            protocol_version: self.protocol_version,
            server_address: self.server_address@,
            server_port: self.server_port,
            next_state: self.next_state,
        }
    }
}

/// The remainder of a handshake from the server address on: `start` is
/// where the address bytes begin and `len` their announced number.
pub open spec fn handshake_from_address(
    data: Seq<u8>,
    packet_length: i32,
    protocol_version: i32,
    start: nat,
    len: i32,
) -> Result<HandshakeView, HandshakeError> {
    if len < 0 && start + len >= 0 {
        Err(HandshakeError::AddressLengthWraps)
    } else if len < 0 || start + len > data.len() {
        Err(HandshakeError::AddressTruncated)
    } else {
        let end = (start + len) as nat;
        let address = data.subrange(start as int, end as int);
        if !valid_utf8(address) {
            Err(HandshakeError::AddressNotUtf8)
        } else if end + 2 > data.len() {
            Err(HandshakeError::ServerPort)
        } else {
            let port = be_u16(data[end as int], data[end + 1int]);
            match decode_varint(suffix_from(data, end + 2)) {
                None => Err(HandshakeError::NextState),
                Some((next_state, n)) => if !(next_state == 1 || next_state == 2) {
                    Err(HandshakeError::InvalidNextState)
                } else if end + 2 + n != data.len() {
                    Err(HandshakeError::TrailingData)
                } else {
                    Ok(
                        HandshakeView {
                            packet_length,
                            packet_id: 0,
                            protocol_version,
                            server_address: decode_utf8(address),
                            server_port: port,
                            next_state,
                        },
                    )
                },
            }
        }
    }
}

/// What `data` holds read as a handshake packet: the packet length
/// (VarInt, equal to the number of bytes after it), the packet id (VarInt,
/// `0x00`), the protocol version (VarInt), the server address (VarInt
/// length, then UTF-8 bytes), the server port (big-endian `u16`) and the
/// next state (VarInt, 1 or 2), with nothing after it; or the first field
/// that fails.
pub open spec fn spec_handshake(data: Seq<u8>) -> Result<HandshakeView, HandshakeError> {
    match decode_varint(data) {
        None => Err(HandshakeError::PacketLength),
        Some((packet_length, n1)) => if !(packet_length >= 0 && packet_length == data.len() - n1) {
            Err(HandshakeError::LengthMismatch)
        } else {
            match decode_varint(suffix_from(data, n1)) {
                None => Err(HandshakeError::PacketId),
                Some((packet_id, n2)) => if packet_id != 0 {
                    Err(HandshakeError::NotHandshake)
                } else {
                    match decode_varint(suffix_from(data, n1 + n2)) {
                        None => Err(HandshakeError::ProtocolVersion),
                        Some((protocol_version, n3)) => match decode_varint(
                            suffix_from(data, n1 + n2 + n3),
                        ) {
                            None => Err(HandshakeError::AddressLength),
                            Some((len, n4)) => handshake_from_address(
                                data,
                                packet_length,
                                protocol_version,
                                n1 + n2 + n3 + n4,
                                len,
                            ),
                        },
                    }
                },
            }
        },
    }
}

/// A handshake is packet id `0x00` with next state 1 or 2, and its leading
/// packet length counts exactly the bytes that follow the length itself.
pub proof fn lemma_handshake_shape(data: Seq<u8>)
    requires
        spec_handshake(data) is Ok,
    ensures
        ({
            let h = spec_handshake(data).unwrap();
            &&& h.packet_id == 0
            &&& h.next_state == 1 || h.next_state == 2
            &&& h.packet_length >= 0
            &&& decode_varint(data) == Some((h.packet_length, (data.len() - h.packet_length) as nat))
        }),
{
}

/// Bytes appended to a handshake make it a packet whose length prefix no
/// longer matches.
pub proof fn lemma_handshake_rejects_extra_bytes(data: Seq<u8>, extra: Seq<u8>)
    requires
        spec_handshake(data) is Ok,
        extra.len() > 0,
    ensures
        spec_handshake(data + extra) == Err::<HandshakeView, HandshakeError>(HandshakeError::LengthMismatch),
{
    lemma_decode_varint_prefix(data, data + extra);
}

/// No proper prefix of a handshake is itself a handshake: a packet cut
/// short is refused.
pub proof fn lemma_handshake_rejects_truncation(data: Seq<u8>, k: nat)
    requires
        spec_handshake(data) is Ok,
        k < data.len(),
    ensures
        spec_handshake(data.take(k as int)) is Err,
{
    let n1 = decode_varint(data).unwrap().1;
    if k < n1 {
        lemma_decode_varint_cut(data, k);
    } else {
        lemma_decode_varint_prefix(data, data.take(k as int));
    }
}

/// Where the protocol version of a handshake starts: after the packet
/// length and the packet id.
pub open spec fn version_offset(data: Seq<u8>) -> nat {
    let n1 = decode_varint(data).unwrap().1;
    n1 + decode_varint(suffix_from(data, n1)).unwrap().1
}

/// How many bytes the protocol version of a handshake takes.
pub open spec fn version_size(data: Seq<u8>) -> nat {
    decode_varint(suffix_from(data, version_offset(data))).unwrap().1
}

/// Where the server port of a handshake starts: after the server address.
pub open spec fn port_offset(data: Seq<u8>) -> nat {
    let p3 = version_offset(data) + version_size(data);
    let (len, n4) = decode_varint(suffix_from(data, p3)).unwrap();
    (p3 + n4 + len) as nat
}

/// Where the server address of a handshake starts: after the protocol
/// version and the address length.
pub open spec fn address_offset(data: Seq<u8>) -> nat {
    let p3 = version_offset(data) + version_size(data);
    p3 + decode_varint(suffix_from(data, p3)).unwrap().1
}

/// What each field of a handshake is made of: the protocol version is the
/// VarInt at its place, the server address is the decoding of the bytes
/// between the address length and the port, which are valid UTF-8, the
/// port is the big-endian value of the two bytes after the address, and
/// the next state is the VarInt that ends the packet.
pub proof fn lemma_handshake_fields(data: Seq<u8>)
    requires
        spec_handshake(data) is Ok,
    ensures
        ({
            let h = spec_handshake(data).unwrap();
            let a = address_offset(data);
            let p = port_offset(data);
            &&& version_offset(data) + version_size(data) <= a <= p
            &&& p + 2 <= data.len()
            &&& decode_varint(suffix_from(data, version_offset(data))) == Some(
                (h.protocol_version, version_size(data)),
            )
            &&& valid_utf8(data.subrange(a as int, p as int))
            &&& h.server_address == decode_utf8(data.subrange(a as int, p as int))
            &&& h.server_port == be_u16(data[p as int], data[p + 1int])
            &&& decode_varint(suffix_from(data, p + 2)) == Some(
                (h.next_state, (data.len() - p - 2) as nat),
            )
        }),
{
    let n1 = decode_varint(data).unwrap().1;
    lemma_varint_size_bounds(suffix_from(data, n1), 0);
    let o = version_offset(data);
    lemma_varint_size_bounds(suffix_from(data, o), 0);
    let p3 = o + version_size(data);
    lemma_varint_size_bounds(suffix_from(data, p3), 0);
}

/// Two byte strings that agree on the bytes of a VarInt found at `k` in
/// the first hold the same VarInt at `k`.
proof fn lemma_varint_at(a: Seq<u8>, b: Seq<u8>, k: nat)
    requires
        decode_varint(suffix_from(a, k)) is Some,
        b.len() >= k + decode_varint(suffix_from(a, k)).unwrap().1,
        forall|j: int|
            k <= j < k + decode_varint(suffix_from(a, k)).unwrap().1 ==> a[j] == b[j],
    ensures
        decode_varint(suffix_from(b, k)) == decode_varint(suffix_from(a, k)),
        k + decode_varint(suffix_from(a, k)).unwrap().1 <= a.len(),
{
    let sa = suffix_from(a, k);
    let sb = suffix_from(b, k);
    let n = decode_varint(sa).unwrap().1;
    lemma_varint_size_bounds(sa, 0);
    assert(n >= 1);
    assert forall|j: int| 0 <= j < n implies sa[j] == sb[j] by {
        assert(sa[j] == a[k + j]);
        assert(sb[j] == b[k + j]);
    }
    lemma_decode_varint_prefix(sa, sb);
}

/// The server port takes no part in whether a packet is a handshake:
/// writing any two bytes over it gives a handshake with that port and the
/// same other fields.
pub proof fn lemma_handshake_ignores_port(data: Seq<u8>, hi: u8, lo: u8)
    requires
        spec_handshake(data) is Ok,
    ensures
        ({
            let p = port_offset(data) as int;
            let other = data.update(p, hi).update(p + 1, lo);
            let h = spec_handshake(data).unwrap();
            &&& spec_handshake(other) is Ok
            &&& spec_handshake(other).unwrap() == HandshakeView { server_port: be_u16(hi, lo), ..h }
        }),
{
    let p = port_offset(data) as int;
    let other = data.update(p, hi).update(p + 1, lo);
    let n1 = decode_varint(data).unwrap().1;
    assert(suffix_from(data, 0) =~= data);
    assert(suffix_from(other, 0) =~= other);
    lemma_varint_at(data, other, 0);
    let n2 = decode_varint(suffix_from(data, n1)).unwrap().1;
    lemma_varint_at(data, other, n1);
    let n3 = decode_varint(suffix_from(data, n1 + n2)).unwrap().1;
    lemma_varint_at(data, other, n1 + n2);
    let p3 = n1 + n2 + n3;
    lemma_varint_at(data, other, p3);
    let (len, n4) = decode_varint(suffix_from(data, p3)).unwrap();
    let start = p3 + n4;
    assert(data.subrange(start as int, p) =~= other.subrange(start as int, p));
    assert(suffix_from(data, (p + 2) as nat) =~= suffix_from(other, (p + 2) as nat));
}

/// The fields from the server address on depend only on the bytes from
/// `from` on.
proof fn lemma_from_address_same_tail(
    data: Seq<u8>,
    other: Seq<u8>,
    from: nat,
    packet_length: i32,
    version: i32,
    other_version: i32,
    start: nat,
    len: i32,
)
    requires
        other.len() == data.len(),
        from <= start,
        forall|k: int| from <= k < data.len() ==> data[k] == other[k],
        handshake_from_address(data, packet_length, version, start, len) is Ok,
    ensures
        handshake_from_address(other, packet_length, other_version, start, len) == Ok::<
            HandshakeView,
            HandshakeError,
        >(
            HandshakeView {
                protocol_version: other_version,
                ..handshake_from_address(data, packet_length, version, start, len).unwrap()
            },
        ),
{
    let end = (start + len) as nat;
    assert(data.subrange(start as int, end as int) =~= other.subrange(start as int, end as int));
    assert(suffix_from(data, end + 2) =~= suffix_from(other, end + 2));
}

/// The protocol version takes no part in whether a packet is a handshake:
/// putting any other VarInt of the same size in its place gives a
/// handshake with that version, the same other fields, and its fields at
/// the same places.
#[verifier::rlimit(30)]
pub proof fn lemma_handshake_ignores_protocol_version(data: Seq<u8>, version: Seq<u8>)
    requires
        spec_handshake(data) is Ok,
        version.len() == version_size(data),
        decode_varint(version) is Some,
        decode_varint(version).unwrap().1 == version.len(),
    ensures
        ({
            let o = version_offset(data) as int;
            let other = data.take(o) + version + data.skip(o + version.len());
            let h = spec_handshake(data).unwrap();
            &&& spec_handshake(other) is Ok
            &&& spec_handshake(other).unwrap() == HandshakeView {
                protocol_version: decode_varint(version).unwrap().0,
                ..h
            }
            &&& version_offset(other) == version_offset(data)
            &&& version_size(other) == version_size(data)
            &&& port_offset(other) == port_offset(data)
        }),
{
    let o = version_offset(data);
    let n3 = version.len();
    let other = data.take(o as int) + version + data.skip((o + n3) as int);
    let n1 = decode_varint(data).unwrap().1;
    lemma_varint_size_bounds(suffix_from(data, o), 0);
    assert(o + n3 <= data.len());
    assert(other.len() == data.len());
    assert forall|j: int| 0 <= j < o implies data[j] == other[j] by {}
    assert forall|j: int| o + n3 <= j < data.len() implies data[j] == other[j] by {}
    assert(suffix_from(data, 0) =~= data);
    assert(suffix_from(other, 0) =~= other);
    lemma_varint_at(data, other, 0);
    assert(decode_varint(other) == decode_varint(data));
    lemma_varint_at(data, other, n1);
    assert(version_offset(other) == o);
    assert(suffix_from(other, o).take(n3 as int) =~= version);
    lemma_decode_varint_prefix(version, suffix_from(other, o));
    assert(version_size(other) == n3);
    let p3 = o + n3;
    assert(suffix_from(other, p3) =~= suffix_from(data, p3));
    assert(port_offset(other) == port_offset(data));
    let (len, n4) = decode_varint(suffix_from(data, p3)).unwrap();
    let v = decode_varint(version).unwrap().0;
    let h = spec_handshake(data).unwrap();
    lemma_from_address_same_tail(data, other, p3, h.packet_length, h.protocol_version, v, p3 + n4, len);
}

/// Port and protocol version together take no part in whether a packet is
/// a handshake: putting any other VarInt of the same size in place of the
/// version and any two bytes in place of the port gives a handshake with
/// those values and the same other fields.
pub proof fn lemma_handshake_ignores_version_and_port(
    data: Seq<u8>,
    version: Seq<u8>,
    hi: u8,
    lo: u8,
)
    requires
        spec_handshake(data) is Ok,
        version.len() == version_size(data),
        decode_varint(version) is Some,
        decode_varint(version).unwrap().1 == version.len(),
    ensures
        ({
            let o = version_offset(data) as int;
            let p = port_offset(data) as int;
            let other = (data.take(o) + version + data.skip(o + version.len())).update(p, hi).update(
                p + 1,
                lo,
            );
            let h = spec_handshake(data).unwrap();
            &&& spec_handshake(other) is Ok
            &&& spec_handshake(other).unwrap() == HandshakeView {
                protocol_version: decode_varint(version).unwrap().0,
                server_port: be_u16(hi, lo),
                ..h
            }
        }),
{
    let o = version_offset(data) as int;
    let middle = data.take(o) + version + data.skip(o + version.len());
    lemma_handshake_ignores_protocol_version(data, version);
    lemma_handshake_ignores_port(middle, hi, lo);
}

/// The body of a handshake packet with the given fields: packet id `0`,
/// the protocol version, the length of the address and the address, the
/// port's two bytes, and the next state, each VarInt in its shortest form.
pub open spec fn handshake_body(
    version: i32,
    address: Seq<u8>,
    port_hi: u8,
    port_lo: u8,
    next_state: i32,
) -> Seq<u8> {
    encode_varint(0) + encode_varint(version) + encode_varint(address.len() as i32) + address
        + seq![port_hi, port_lo] + encode_varint(next_state)
}

/// A handshake packet with the given fields: the body, preceded by its
/// length.
pub open spec fn handshake_packet(
    version: i32,
    address: Seq<u8>,
    port_hi: u8,
    port_lo: u8,
    next_state: i32,
) -> Seq<u8> {
    let body = handshake_body(version, address, port_hi, port_lo, next_state);
    encode_varint(body.len() as i32) + body
}

/// The suffix from `a + b` is the suffix from `b` of the suffix from `a`.
proof fn lemma_suffix_of_suffix(s: Seq<u8>, a: nat, b: nat)
    requires
        a <= s.len(),
    ensures
        suffix_from(s, a + b) == suffix_from(suffix_from(s, a), b),
{
    assert(suffix_from(s, a + b) =~= suffix_from(suffix_from(s, a), b));
}

/// Peeling the VarInt `v` off the front of `e + rest`: it is read back,
/// and what follows it is `rest`.
proof fn lemma_peel_varint(v: i32, rest: Seq<u8>)
    ensures
        decode_varint(encode_varint(v) + rest) == Some((v, encode_varint(v).len())),
        suffix_from(encode_varint(v) + rest, encode_varint(v).len()) == rest,
        1 <= encode_varint(v).len() <= 5,
{
    lemma_varint_round_trip(v, rest);
    assert(suffix_from(encode_varint(v) + rest, encode_varint(v).len()) =~= rest);
}

/// The server address and what follows it in a built handshake.
proof fn lemma_address_tail(data: Seq<u8>, start: nat, address: Seq<u8>, port_hi: u8, port_lo: u8, next_state: i32)
    requires
        start <= data.len(),
        suffix_from(data, start) == address + (seq![port_hi, port_lo] + encode_varint(next_state)),
    ensures
        ({
            let end = start + address.len();
            &&& data.len() == end + 2 + encode_varint(next_state).len()
            &&& data.subrange(start as int, end as int) == address
            &&& data[end as int] == port_hi
            &&& data[end + 1int] == port_lo
            &&& decode_varint(suffix_from(data, end + 2)) == Some((next_state, encode_varint(next_state).len()))
        }),
{
    let end = start + address.len();
    let t = suffix_from(data, start);
    lemma_peel_varint(next_state, Seq::empty());
    assert(encode_varint(next_state) + Seq::<u8>::empty() =~= encode_varint(next_state));
    assert(t.len() == address.len() + 2 + encode_varint(next_state).len());
    assert(start < data.len());
    assert(t == data.subrange(start as int, data.len() as int));
    assert(data.len() == end + 2 + encode_varint(next_state).len());
    assert(data.subrange(start as int, end as int) =~= address) by {
        assert forall|i: int| 0 <= i < address.len() implies data[start + i] == address[i] by {
            assert(t[i] == data[start + i]);
        }
    }
    assert(t[address.len() as int] == data[end as int]);
    assert(t[address.len() + 1int] == data[end + 1int]);
    assert forall|i: int| 0 <= i < encode_varint(next_state).len() implies suffix_from(data, end + 2)[i]
        == encode_varint(next_state)[i] by {
        assert(t[address.len() + 2 + i] == data[end + 2 + i]);
    }
    assert(suffix_from(data, end + 2) =~= encode_varint(next_state));
}

/// The four VarInts at the front of a built handshake are read back, and
/// the server address follows them.
proof fn lemma_leading_varints(data: Seq<u8>, len: i32, version: i32, alen: i32, r4: Seq<u8>)
    requires
        data == encode_varint(len) + (encode_varint(0) + (encode_varint(version) + (encode_varint(alen)
            + r4))),
    ensures
        ({
            let n1 = encode_varint(len).len();
            let n2 = encode_varint(0).len();
            let n3 = encode_varint(version).len();
            let n4 = encode_varint(alen).len();
            &&& decode_varint(data) == Some((len, n1))
            &&& decode_varint(suffix_from(data, n1)) == Some((0i32, n2))
            &&& decode_varint(suffix_from(data, n1 + n2)) == Some((version, n3))
            &&& decode_varint(suffix_from(data, n1 + n2 + n3)) == Some((alen, n4))
            &&& suffix_from(data, n1 + n2 + n3 + n4) == r4
            &&& data.len() == n1 + n2 + n3 + n4 + r4.len()
        }),
{
    let r3 = encode_varint(alen) + r4;
    let r2 = encode_varint(version) + r3;
    let r1 = encode_varint(0) + r2;
    lemma_peel_varint(len, r1);
    lemma_peel_varint(0, r2);
    lemma_peel_varint(version, r3);
    lemma_peel_varint(alen, r4);
    let n1 = encode_varint(len).len();
    let n2 = encode_varint(0).len();
    let n3 = encode_varint(version).len();
    lemma_suffix_of_suffix(data, n1, n2);
    lemma_suffix_of_suffix(data, n1 + n2, n3);
    lemma_suffix_of_suffix(data, n1 + n2 + n3, encode_varint(alen).len());
}

/// Once its four leading VarInts are read, with a length that matches and
/// a packet id of `0`, a packet is judged by what comes from its server
/// address on.
proof fn lemma_handshake_by_address(
    data: Seq<u8>,
    len: i32,
    version: i32,
    alen: i32,
    n1: nat,
    n2: nat,
    n3: nat,
    n4: nat,
)
    requires
        decode_varint(data) == Some((len, n1)),
        decode_varint(suffix_from(data, n1)) == Some((0i32, n2)),
        decode_varint(suffix_from(data, n1 + n2)) == Some((version, n3)),
        decode_varint(suffix_from(data, n1 + n2 + n3)) == Some((alen, n4)),
        len >= 0,
        len == data.len() - n1,
    ensures
        spec_handshake(data) == handshake_from_address(data, len, version, n1 + n2 + n3 + n4, alen),
{
}

/// The body of a built handshake, its fields nested to the right.
proof fn lemma_body_nested(version: i32, address: Seq<u8>, port_hi: u8, port_lo: u8, next_state: i32)
    ensures
        handshake_body(version, address, port_hi, port_lo, next_state) == encode_varint(0) + (
        encode_varint(version) + (encode_varint(address.len() as i32) + (address + (seq![
            port_hi,
            port_lo,
        ] + encode_varint(next_state))))),
{
    assert(handshake_body(version, address, port_hi, port_lo, next_state) =~= encode_varint(0) + (
    encode_varint(version) + (encode_varint(address.len() as i32) + (address + (seq![
        port_hi,
        port_lo,
    ] + encode_varint(next_state))))));
}

/// The fields from the server address on of a built handshake.
proof fn lemma_built_address_fields(
    data: Seq<u8>,
    len: i32,
    version: i32,
    start: nat,
    address: Seq<u8>,
    port_hi: u8,
    port_lo: u8,
    next_state: i32,
)
    requires
        start <= data.len(),
        suffix_from(data, start) == address + (seq![port_hi, port_lo] + encode_varint(next_state)),
        valid_utf8(address),
        next_state == 1 || next_state == 2,
        address.len() < 0x8000_0000,
    ensures
        handshake_from_address(data, len, version, start, address.len() as i32) == Ok::<
            HandshakeView,
            HandshakeError,
        >(
            HandshakeView {
                packet_length: len,
                packet_id: 0,
                protocol_version: version,
                server_address: decode_utf8(address),
                server_port: be_u16(port_hi, port_lo),
                next_state,
            },
        ),
{
    lemma_address_tail(data, start, address, port_hi, port_lo, next_state);
}

/// Every packet built from a protocol version, a UTF-8 server address, a
/// port and a next state of 1 or 2 is a handshake, and gives back exactly
/// those fields: whatever the version, the port and the address (as long
/// as it is valid UTF-8), and for a status request as for a login.
pub proof fn lemma_handshake_accepts_every_encoding(
    version: i32,
    address: Seq<u8>,
    port_hi: u8,
    port_lo: u8,
    next_state: i32,
)
    requires
        valid_utf8(address),
        next_state == 1 || next_state == 2,
        handshake_body(version, address, port_hi, port_lo, next_state).len() < 0x8000_0000,
    ensures
        spec_handshake(handshake_packet(version, address, port_hi, port_lo, next_state)) == Ok::<
            HandshakeView,
            HandshakeError,
        >(
            HandshakeView {
                packet_length: handshake_body(version, address, port_hi, port_lo, next_state).len() as i32,
                packet_id: 0,
                protocol_version: version,
                server_address: decode_utf8(address),
                server_port: be_u16(port_hi, port_lo),
                next_state,
            },
        ),
{
    let body = handshake_body(version, address, port_hi, port_lo, next_state);
    let data = handshake_packet(version, address, port_hi, port_lo, next_state);
    let len_i = body.len() as i32;
    let alen = address.len() as i32;
    let r4 = address + (seq![port_hi, port_lo] + encode_varint(next_state));
    lemma_body_nested(version, address, port_hi, port_lo, next_state);
    lemma_leading_varints(data, len_i, version, alen, r4);
    let n1 = encode_varint(len_i).len();
    let n2 = encode_varint(0).len();
    let n3 = encode_varint(version).len();
    let n4 = encode_varint(alen).len();
    let start = n1 + n2 + n3 + n4;
    lemma_built_address_fields(data, len_i, version, start, address, port_hi, port_lo, next_state);
    lemma_handshake_by_address(data, len_i, version, alen, n1, n2, n3, n4);
}

/// Calls `std::str::from_utf8`.
///
/// Trusted: by its documentation the call succeeds exactly when `bytes`
/// is valid UTF-8, and the string it gives back is made of those very
/// bytes.
#[verifier::external_body]
fn utf8_str(bytes: &[u8]) -> (r: Option<&str>)
    ensures
        r is Some <==> valid_utf8(bytes@),
        r matches Some(s) ==> encode_utf8(s@) == bytes@,
{
    std::str::from_utf8(bytes).ok()
}

/// Reads `data` as a Minecraft handshake packet and gives its fields, or
/// the first field that is missing or wrong.
pub fn check_handshake(data: &[u8]) -> (r: Result<Handshake, HandshakeError>)
    ensures
        match r {
            Ok(h) => spec_handshake(data@) == Ok::<HandshakeView, HandshakeError>(h@),
            Err(e) => spec_handshake(data@) == Err::<HandshakeView, HandshakeError>(e),
        },
{
    let mut cursor = ByteCursor::new(data);
    assert(cursor.remaining() =~= data@);

    let (packet_length, length_bytes_read) = match read_varint(&mut cursor) {
        Some(result) => result,
        None => {
            return Err(HandshakeError::PacketLength);
        },
    };
    if packet_length < 0 || packet_length as usize != data.len() - length_bytes_read {
        return Err(HandshakeError::LengthMismatch);
    }

    let (packet_id, _) = match read_varint(&mut cursor) {
        Some(result) => result,
        None => {
            return Err(HandshakeError::PacketId);
        },
    };
    if packet_id != 0 {
        return Err(HandshakeError::NotHandshake);
    }

    let (protocol_version, _) = match read_varint(&mut cursor) {
        Some(result) => result,
        None => {
            return Err(HandshakeError::ProtocolVersion);
        },
    };

    let (string_len, _) = match read_varint(&mut cursor) {
        Some(result) => result,
        None => {
            return Err(HandshakeError::AddressLength);
        },
    };
    let current_pos = cursor.position();
    if string_len < 0 {
        if current_pos as i64 + string_len as i64 >= 0 {
            return Err(HandshakeError::AddressLengthWraps);
        }
        return Err(HandshakeError::AddressTruncated);
    }
    let string_len = string_len as usize;
    if string_len > data.len() - current_pos {
        return Err(HandshakeError::AddressTruncated);
    }
    let end = current_pos + string_len;
    let server_address = match utf8_str(&data[current_pos..end]) {
        Some(text) => text.to_owned(),
        None => {
            return Err(HandshakeError::AddressNotUtf8);
        },
    };
    proof {
        encode_utf8_decode_utf8(server_address@);
    }
    cursor.set_position(end);

    let server_port = match cursor.read_u16_be() {
        Some(port) => port,
        None => {
            return Err(HandshakeError::ServerPort);
        },
    };

    let (next_state, _) = match read_varint(&mut cursor) {
        Some(result) => result,
        None => {
            return Err(HandshakeError::NextState);
        },
    };
    if !(next_state == 1 || next_state == 2) {
        return Err(HandshakeError::InvalidNextState);
    }

    if cursor.position() != data.len() {
        return Err(HandshakeError::TrailingData);
    }

    Ok(
        Handshake {
            packet_length,
            packet_id,
            protocol_version,
            server_address,
            server_port,
            next_state,
        },
    )
}

/// Whether `data` is a Minecraft handshake packet.
pub fn is_valid_handshake(data: &[u8]) -> (r: bool)
    ensures
        r == spec_handshake(data@) is Ok,
{
    check_handshake(data).is_ok()
}

} // verus!
