use crate::protocol::cursor::ByteCursor;
use vstd::prelude::*;

verus! {

/// The most bytes a VarInt may occupy.
pub const MAX_VARINT_BYTES: usize = 5;

/// `128` raised to the power `i`.
pub open spec fn pow128(i: nat) -> nat
    decreases i,
{
    if i == 0 {
        1
    } else {
        128 * pow128((i - 1) as nat)
    }
}

/// Whether a byte announces that the VarInt goes on (its high bit is set).
pub open spec fn is_continuation(b: u8) -> bool {
    b >= 0x80
}

/// Searching from index `i`, the size of the VarInt at the start of `s`:
/// one more than the index of the first byte without the continuation
/// bit, provided that byte is among the first `MAX_VARINT_BYTES` bytes and
/// inside `s`.
pub open spec fn varint_size_from(s: Seq<u8>, i: nat) -> Option<nat>
    decreases MAX_VARINT_BYTES - i,
{
    if i >= MAX_VARINT_BYTES || i >= s.len() {
        None
    } else if !is_continuation(s[i as int]) {
        Some(i + 1)
    } else {
        varint_size_from(s, i + 1)
    }
}

/// The number of bytes of the VarInt at the start of `s`, or `None` when
/// `s` holds no complete VarInt of at most `MAX_VARINT_BYTES` bytes.
pub open spec fn varint_size(s: Seq<u8>) -> Option<nat> {
    varint_size_from(s, 0)
}

/// The number written by the first `n` bytes of `s` taken as
/// little-endian groups of seven bits (the high bit of each byte dropped).
pub open spec fn varint_magnitude(s: Seq<u8>, n: nat) -> nat
    decreases n,
{
    if n == 0 {
        0
    } else {
        varint_magnitude(s, (n - 1) as nat) + (s[n - 1] % 128) as nat * pow128((n - 1) as nat)
    }
}

/// The `i32` whose two's-complement bits are the low 32 bits of `x`.
pub open spec fn wrap_i32(x: int) -> int {
    let m = x % 0x1_0000_0000;
    if m < 0x8000_0000 {
        m
    } else {
        m - 0x1_0000_0000
    }
}

/// The value and the size of the VarInt at the start of `s`: the seven-bit
/// groups put together, truncated to 32 bits and read as an `i32`.
pub open spec fn decode_varint(s: Seq<u8>) -> Option<(i32, nat)> {
    match varint_size(s) {
        Some(n) => Some((wrap_i32(varint_magnitude(s, n) as int) as i32, n)),
        None => None,
    }
}

proof fn lemma_pow128_bounds(n: nat)
    requires
        n <= 5,
    ensures
        1 <= pow128(n) <= 0x8_0000_0000,
{
    reveal_with_fuel(pow128, 6);
}

proof fn lemma_magnitude_below(s: Seq<u8>, n: nat)
    ensures
        varint_magnitude(s, n) < pow128(n),
    decreases n,
{
    if n > 0 {
        let k = (n - 1) as nat;
        lemma_magnitude_below(s, k);
        let d = (s[k as int] % 128) as nat;
        assert(varint_magnitude(s, k) + d * pow128(k) < pow128(n)) by (nonlinear_arith)
            requires
                varint_magnitude(s, k) < pow128(k),
                d <= 127,
                pow128(n) == 128 * pow128(k),
        ;
    }
}

/// A VarInt found at the start of `s` takes between one and
/// `MAX_VARINT_BYTES` bytes, all inside `s`.
pub proof fn lemma_varint_size_bounds(s: Seq<u8>, i: nat)
    ensures
        varint_size_from(s, i) matches Some(n) ==> i < n <= MAX_VARINT_BYTES && n <= s.len(),
    decreases MAX_VARINT_BYTES - i,
{
    if i < MAX_VARINT_BYTES && i < s.len() && is_continuation(s[i as int]) {
        lemma_varint_size_bounds(s, i + 1);
    }
}

proof fn lemma_size_found(s: Seq<u8>, i: nat, k: nat)
    requires
        i <= k < MAX_VARINT_BYTES,
        k < s.len(),
        !is_continuation(s[k as int]),
        forall|j: int| i <= j < k ==> is_continuation(#[trigger] s[j]),
    ensures
        varint_size_from(s, i) == Some(k + 1),
    decreases k - i,
{
    if i < k {
        lemma_size_found(s, i + 1, k);
    }
}

proof fn lemma_size_missing(s: Seq<u8>, i: nat)
    requires
        forall|j: int| i <= j < MAX_VARINT_BYTES && j < s.len() ==> is_continuation(#[trigger] s[j]),
    ensures
        varint_size_from(s, i) is None,
    decreases MAX_VARINT_BYTES - i,
{
    if i < MAX_VARINT_BYTES && i < s.len() {
        lemma_size_missing(s, i + 1);
    }
}

proof fn lemma_size_same_prefix(s: Seq<u8>, t: Seq<u8>, i: nat, n: nat)
    requires
        varint_size_from(s, i) == Some(n),
        t.len() >= n,
        forall|j: int| 0 <= j < n ==> s[j] == t[j],
    ensures
        varint_size_from(t, i) == Some(n),
    decreases MAX_VARINT_BYTES - i,
{
    lemma_varint_size_bounds(s, i);
    if is_continuation(s[i as int]) {
        lemma_size_same_prefix(s, t, i + 1, n);
    }
}

proof fn lemma_magnitude_same_prefix(s: Seq<u8>, t: Seq<u8>, n: nat)
    requires
        forall|j: int| 0 <= j < n ==> s[j] == t[j],
    ensures
        varint_magnitude(s, n) == varint_magnitude(t, n),
    decreases n,
{
    if n > 0 {
        lemma_magnitude_same_prefix(s, t, (n - 1) as nat);
    }
}

/// What a VarInt decodes to depends only on the bytes it occupies: any
/// data that starts with those same bytes decodes to the same value and
/// size, whatever follows them.
pub proof fn lemma_decode_varint_prefix(s: Seq<u8>, t: Seq<u8>)
    requires
        decode_varint(s) is Some,
        t.len() >= decode_varint(s).unwrap().1,
        forall|j: int| 0 <= j < decode_varint(s).unwrap().1 ==> s[j] == t[j],
    ensures
        decode_varint(t) == decode_varint(s),
{
    let n = decode_varint(s).unwrap().1;
    lemma_size_same_prefix(s, t, 0, n);
    lemma_magnitude_same_prefix(s, t, n);
}

/// Data that stops inside a VarInt (before its last byte) holds no VarInt.
pub proof fn lemma_decode_varint_cut(s: Seq<u8>, k: nat)
    requires
        decode_varint(s) is Some,
        k < decode_varint(s).unwrap().1,
    ensures
        decode_varint(s.take(k as int)) is None,
{
    let n = decode_varint(s).unwrap().1;
    lemma_varint_size_bounds(s, 0);
    lemma_cut_helper(s, k, 0, n);
}

proof fn lemma_cut_helper(s: Seq<u8>, k: nat, i: nat, n: nat)
    requires
        varint_size_from(s, i) == Some(n),
        k < n,
        n <= s.len(),
    ensures
        varint_size_from(s.take(k as int), i) is None,
    decreases MAX_VARINT_BYTES - i,
{
    lemma_varint_size_bounds(s, i);
    if i < k {
        assert(s.take(k as int)[i as int] == s[i as int]);
        lemma_cut_helper(s, k, i + 1, n);
    }
}

/// The VarInt bytes of a natural number: seven bits per byte, lowest
/// first, the high bit set on every byte but the last, and no more bytes
/// than needed.
pub open spec fn varint_groups(m: nat) -> Seq<u8>
    decreases m,
{
    if m < 128 {
        seq![m as u8]
    } else {
        seq![(m % 128 + 128) as u8] + varint_groups(m / 128)
    }
}

/// The 32 bits of `v` (two's complement) as an unsigned number.
pub open spec fn i32_bits(v: i32) -> nat {
    if v >= 0 {
        v as nat
    } else {
        (v + 0x1_0000_0000) as nat
    }
}

/// The shortest VarInt encoding of `v`: the groups of its 32 bits.
pub open spec fn encode_varint(v: i32) -> Seq<u8> {
    varint_groups(i32_bits(v))
}

proof fn lemma_groups_shape(m: nat)
    ensures
        varint_groups(m).len() >= 1,
        forall|i: int| 0 <= i < varint_groups(m).len() - 1 ==> is_continuation(#[trigger] varint_groups(m)[i]),
        !is_continuation(varint_groups(m)[varint_groups(m).len() - 1]),
        m < pow128(varint_groups(m).len()),
        varint_groups(m).len() > 1 ==> m >= pow128((varint_groups(m).len() - 1) as nat),
    decreases m,
{
    if m < 128 {
        assert(pow128(1) == 128 * pow128(0));
    } else {
        let q = m / 128;
        lemma_groups_shape(q);
        let g = varint_groups(m);
        let t = varint_groups(q);
        let b = (m % 128 + 128) as u8;
        assert(g =~= seq![b] + t);
        assert forall|i: int| 0 <= i < g.len() - 1 implies is_continuation(#[trigger] g[i]) by {
            if i > 0 {
                assert(g[i] == t[i - 1]);
            }
        }
        assert(g[g.len() - 1] == t[t.len() - 1]);
        let k = t.len();
        assert(pow128(k + 1) == 128 * pow128(k));
        assert(m < pow128(k + 1)) by (nonlinear_arith)
            requires
                q < pow128(k),
                q == m / 128,
                pow128(k + 1) == 128 * pow128(k),
        ;
        if k > 1 {
            assert(pow128(k) == 128 * pow128((k - 1) as nat));
        }
        assert(m >= pow128(k)) by (nonlinear_arith)
            requires
                q == m / 128,
                m >= 128,
                k > 1 ==> q >= pow128((k - 1) as nat),
                k > 1 ==> pow128(k) == 128 * pow128((k - 1) as nat),
                k == 1 ==> pow128(k) == 128,
        ;
    }
}

proof fn lemma_magnitude_cons(b: u8, t: Seq<u8>, n: nat)
    requires
        n <= t.len(),
    ensures
        varint_magnitude(seq![b] + t, n + 1) == (b % 128) as nat + 128 * varint_magnitude(t, n),
    decreases n,
{
    let c = seq![b] + t;
    if n > 0 {
        lemma_magnitude_cons(b, t, (n - 1) as nat);
        assert(c[n as int] == t[n - 1]);
        let d = (t[n - 1] % 128) as nat;
        assert(pow128(n) == 128 * pow128((n - 1) as nat));
        assert(varint_magnitude(c, n + 1) == varint_magnitude(c, n) + d * pow128(n));
        assert(varint_magnitude(t, n) == varint_magnitude(t, (n - 1) as nat) + d * pow128((n - 1) as nat));
        assert(d * pow128(n) == 128 * (d * pow128((n - 1) as nat))) by (nonlinear_arith)
            requires
                pow128(n) == 128 * pow128((n - 1) as nat),
        ;
    } else {
        assert(c[0] == b);
        assert(pow128(0) == 1);
        assert(varint_magnitude(c, 1) == varint_magnitude(c, 0) + (c[0] % 128) as nat * pow128(0));
    }
}

proof fn lemma_groups_magnitude(m: nat, rest: Seq<u8>)
    ensures
        varint_magnitude(varint_groups(m) + rest, varint_groups(m).len()) == m,
    decreases m,
{
    let s = varint_groups(m) + rest;
    if m < 128 {
        assert(s[0] == m as u8);
        assert(pow128(0) == 1);
        assert((m as u8) % 128 == m);
        assert(varint_magnitude(s, 1) == varint_magnitude(s, 0) + (s[0] % 128) as nat * pow128(0));
    } else {
        let q = m / 128;
        let t = varint_groups(q);
        let b = (m % 128 + 128) as u8;
        lemma_groups_magnitude(q, rest);
        assert(s =~= seq![b] + (t + rest));
        lemma_magnitude_cons(b, t + rest, t.len());
        assert(varint_groups(m).len() == t.len() + 1);
        assert(b % 128 == m % 128);
        assert(m == m % 128 + 128 * q);
        assert(varint_magnitude(s, t.len() + 1) == (b % 128) as nat + 128 * varint_magnitude(t + rest, t.len()));
    }
}

/// Decoding the shortest encoding of any `i32`, whatever follows it, gives
/// the number back and takes exactly the bytes of the encoding, which are
/// between one and `MAX_VARINT_BYTES`.
pub proof fn lemma_varint_round_trip(v: i32, rest: Seq<u8>)
    ensures
        1 <= encode_varint(v).len() <= MAX_VARINT_BYTES,
        decode_varint(encode_varint(v) + rest) == Some((v, encode_varint(v).len())),
{
    let m = i32_bits(v);
    let g = varint_groups(m);
    let s = g + rest;
    lemma_groups_shape(m);
    let k = g.len();
    if k > 5 {
        lemma_pow128_bounds(5);
        reveal_with_fuel(pow128, 6);
        assert(pow128(5) == 0x8_0000_0000);
        lemma_pow128_monotone(5, (k - 1) as nat);
        assert(false);
    }
    assert forall|j: int| 0 <= j < k - 1 implies is_continuation(#[trigger] s[j]) by {
        assert(s[j] == g[j]);
    }
    assert(s[k - 1] == g[k - 1]);
    lemma_size_found(s, 0, (k - 1) as nat);
    lemma_groups_magnitude(m, rest);
    assert(m < 0x1_0000_0000);
    assert(wrap_i32(m as int) == v);
}

proof fn lemma_pow128_monotone(a: nat, b: nat)
    requires
        a <= b,
    ensures
        pow128(a) <= pow128(b),
    decreases b - a,
{
    if a < b {
        lemma_pow128_monotone(a, (b - 1) as nat);
        assert(pow128(b) == 128 * pow128((b - 1) as nat));
    }
}

/// The bytes of a VarInt found at the start of `s`: all but its last carry
/// the continuation bit.
proof fn lemma_size_bytes(s: Seq<u8>, i: nat, n: nat)
    requires
        varint_size_from(s, i) == Some(n),
    ensures
        forall|j: int| i <= j < n - 1 ==> is_continuation(#[trigger] s[j]),
        !is_continuation(s[n - 1]),
    decreases MAX_VARINT_BYTES - i,
{
    lemma_varint_size_bounds(s, i);
    if is_continuation(s[i as int]) {
        lemma_size_bytes(s, i + 1, n);
    }
}

/// A VarInt may carry a redundant zero group: continuing its last byte and
/// adding a zero byte after it, while it stays within `MAX_VARINT_BYTES`,
/// gives the same value, one byte longer.
pub proof fn lemma_varint_zero_group(s: Seq<u8>)
    requires
        decode_varint(s) is Some,
        decode_varint(s).unwrap().1 < MAX_VARINT_BYTES,
    ensures
        ({
            let (v, n) = decode_varint(s).unwrap();
            let t = s.take(n - 1).push((s[n - 1] + 128) as u8).push(0u8) + s.skip(n as int);
            decode_varint(t) == Some((v, n + 1))
        }),
{
    let (v, n) = decode_varint(s).unwrap();
    lemma_varint_size_bounds(s, 0);
    lemma_size_bytes(s, 0, n);
    let t = s.take(n - 1).push((s[n - 1] + 128) as u8).push(0u8) + s.skip(n as int);
    assert forall|j: int| 0 <= j < n implies is_continuation(#[trigger] t[j]) by {
        if j < n - 1 {
            assert(t[j] == s[j]);
        }
    }
    assert(t[n as int] == 0);
    lemma_size_found(t, 0, n);
    assert forall|j: int| 0 <= j < n - 1 implies s[j] == t[j] by {}
    lemma_magnitude_same_prefix(s, t, (n - 1) as nat);
    assert(t[n - 1] == (s[n - 1] + 128) as u8);
    assert((t[n - 1] % 128) == (s[n - 1] % 128));
    assert(varint_magnitude(t, n) == varint_magnitude(s, n));
    assert(varint_magnitude(t, n + 1) == varint_magnitude(t, n) + (t[n as int] % 128) as nat * pow128(n));
}

/// Reads a VarInt at the cursor and moves the cursor past the bytes read.
///
/// Returns the value and the number of bytes it took. Returns `None` when
/// the data ends before the VarInt does, or when the VarInt runs past
/// `MAX_VARINT_BYTES` bytes; the cursor has then moved past every byte
/// that was looked at (at most six).
pub fn read_varint(reader: &mut ByteCursor) -> (r: Option<(i32, usize)>)
    ensures
        final(reader).bytes() == old(reader).bytes(),
        match r {
            Some((v, n)) => {
                &&& decode_varint(old(reader).remaining()) == Some((v, n as nat))
                &&& 1 <= n <= MAX_VARINT_BYTES
                &&& n <= old(reader).remaining().len()
                &&& final(reader).pos() == old(reader).pos() + n
            },
            None => {
                &&& decode_varint(old(reader).remaining()) is None
                &&& final(reader).pos() == old(reader).pos() + if old(reader).remaining().len() < 6 {
                    old(reader).remaining().len()
                } else {
                    6
                }
            },
        },
{
    let ghost s = reader.remaining();
    let ghost p0 = reader.pos();
    let mut num_read: usize = 0;
    let mut magnitude: u64 = 0;
    let mut scale: u64 = 1;
    loop
        invariant
            reader.bytes() == old(reader).bytes(),
            s == old(reader).remaining(),
            p0 == old(reader).pos(),
            num_read <= MAX_VARINT_BYTES,
            num_read <= s.len(),
            reader.pos() == p0 + num_read,
            num_read > 0 ==> p0 < reader.bytes().len(),
            forall|j: int| 0 <= j < num_read ==> is_continuation(#[trigger] s[j]),
            scale == pow128(num_read as nat),
            magnitude == varint_magnitude(s, num_read as nat),
        decreases s.len() - num_read,
    {
        if reader.position() >= reader.get_ref().len() {
            proof {
                assert(num_read == s.len());
                lemma_size_missing(s, 0);
            }
            return None;
        }
        proof {
            assert(reader.remaining() == s.subrange(num_read as int, s.len() as int));
        }
        let read = match reader.read_u8() {
            Some(b) => b,
            None => {
                return None;
            },
        };
        assert(read == s[num_read as int]);
        num_read = num_read + 1;
        if num_read > MAX_VARINT_BYTES {
            proof {
                lemma_size_missing(s, 0);
            }
            return None;
        }
        let value: u64 = (read % 128) as u64;
        proof {
            lemma_pow128_bounds((num_read - 1) as nat);
            lemma_pow128_bounds(num_read as nat);
            lemma_magnitude_below(s, (num_read - 1) as nat);
            assert(magnitude + value * scale < 128 * scale) by (nonlinear_arith)
                requires
                    magnitude < scale,
                    value <= 127,
            ;
            assert(value * scale <= 127 * scale) by (nonlinear_arith)
                requires
                    value <= 127,
            ;
        }
        magnitude = magnitude + value * scale;
        scale = scale * 128;
        if read < 0x80 {
            proof {
                lemma_size_found(s, 0, (num_read - 1) as nat);
                lemma_varint_size_bounds(s, 0);
            }
            let low: u64 = magnitude % 0x1_0000_0000;
            let v: i32 = if low < 0x8000_0000 {
                low as i32
            } else {
                (low as i64 - 0x1_0000_0000) as i32
            };
            return Some((v, num_read));
        }
    }
}

} // verus!
