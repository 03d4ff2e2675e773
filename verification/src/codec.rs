//! Byte-level building blocks of the wire formats: single bytes and the
//! variable-length integers of `bytes_varint`.
use vstd::prelude::*;

verus! {

/// The bytes that `bytes_varint` writes for `n`: seven bits per byte, least
/// significant group first, with the high bit set on every byte but the last.
pub open spec fn varint_bytes(n: nat) -> Seq<u8>
    decreases n,
{
    if n < 0x80 {
        seq![n as u8]
    } else {
        seq![((n % 0x80) + 0x80) as u8] + varint_bytes(n / 0x80)
    }
}

/// Reads a varint into a `u32` the way `bytes_varint` does, with `room`
/// bytes left before the value overflows (5 for a `u32`): the last byte
/// that fits may carry only the low 4 bits.
/// Gives the value and the number of bytes consumed.
pub open spec fn varint_parse(s: Seq<u8>, room: nat) -> Option<(nat, nat)>
    decreases s.len(),
{
    if s.len() == 0 || room == 0 {
        None
    } else if room == 1 && s[0] >= 0x10 {
        None
    } else if s[0] < 0x80 {
        Some((s[0] as nat, 1))
    } else {
        match varint_parse(s.drop_first(), (room - 1) as nat) {
            Some((v, k)) => Some((((s[0] - 0x80) + 0x80 * v) as nat, k + 1)),
            None => None,
        }
    }
}

/// Reading a `u32` varint.
pub open spec fn varint_parse_u32(s: Seq<u8>) -> Option<(nat, nat)> {
    varint_parse(s, 5)
}

/// The values a varint of `room` bytes can hold: `16 * 128^(room - 1)`.
pub open spec fn varint_cap(room: nat) -> nat
    decreases room,
{
    if room <= 1 {
        16
    } else {
        0x80 * varint_cap((room - 1) as nat)
    }
}

/// A varint is one to five bytes, all but the last with the high bit set.
pub proof fn lemma_varint_bytes_shape(n: nat)
    ensures
        varint_bytes(n).len() >= 1,
        varint_bytes(n).last() < 0x80,
        n >= 0x80 ==> varint_bytes(n)[0] >= 0x80,
    decreases n,
{
    if n >= 0x80 {
        lemma_varint_bytes_shape(n / 0x80);
    }
}

/// Reading back what was written gives the value and consumes exactly the
/// bytes written, whatever follows them.
pub proof fn lemma_varint_roundtrip(n: nat, room: nat, rest: Seq<u8>)
    requires
        room >= 1,
        n < varint_cap(room),
    ensures
        varint_parse(varint_bytes(n) + rest, room) == Some((n, varint_bytes(n).len())),
    decreases n,
{
    let s = varint_bytes(n) + rest;
    if n < 0x80 {
        if room == 1 {
            assert(n < 16);
        }
        assert(s[0] == n as u8);
    } else {
        assert(room >= 2) by {
            if room <= 1 {
                assert(varint_cap(room) == 16);
            }
        }
        assert(varint_cap(room) == 0x80 * varint_cap((room - 1) as nat));
        lemma_varint_roundtrip(n / 0x80, (room - 1) as nat, rest);
        assert(s.drop_first() =~= varint_bytes(n / 0x80) + rest);
        assert(s[0] == ((n % 0x80) + 0x80) as u8);
    }
}

/// Every `u32` reads back from its varint.
pub proof fn lemma_varint_roundtrip_u32(n: u32, rest: Seq<u8>)
    ensures
        varint_parse_u32(varint_bytes(n as nat) + rest) == Some((n as nat, varint_bytes(
            n as nat,
        ).len())),
{
    assert(varint_cap(5) == 0x1_0000_0000) by {
        reveal_with_fuel(varint_cap, 5);
    }
    lemma_varint_roundtrip(n as nat, 5, rest);
}

/// A successful read consumes at least one byte, and no more than are there.
pub proof fn lemma_varint_parse_consumes(s: Seq<u8>, room: nat)
    ensures
        varint_parse(s, room) matches Some((v, k)) ==> 1 <= k <= s.len() && k <= room && v
            < varint_cap(room),
    decreases s.len(),
{
    if s.len() > 0 && room > 0 && !(room == 1 && s[0] >= 0x10) && s[0] >= 0x80 {
        lemma_varint_parse_consumes(s.drop_first(), (room - 1) as nat);
        if room >= 2 {
            assert(varint_cap(room) == 0x80 * varint_cap((room - 1) as nat));
        }
    } else if room >= 2 {
        assert(varint_cap(room) == 0x80 * varint_cap((room - 1) as nat));
        lemma_cap_ge_16(room);
    }
}

/// A successful `u32` read gives a `u32` and consumes one to five bytes.
pub proof fn lemma_varint_parse_u32_bound(s: Seq<u8>)
    ensures
        varint_parse_u32(s) matches Some((v, k)) ==> 1 <= k <= s.len() && k <= 5 && v
            <= u32::MAX,
{
    assert(varint_cap(5) == 0x1_0000_0000) by {
        reveal_with_fuel(varint_cap, 5);
    }
    lemma_varint_parse_consumes(s, 5);
}

proof fn lemma_cap_ge_16(room: nat)
    ensures
        varint_cap(room) >= 16,
    decreases room,
{
    if room > 1 {
        lemma_cap_ge_16((room - 1) as nat);
    }
}

/// Whether `a` is what is left of `b` after some of its front is taken.
pub open spec fn is_suffix(a: Seq<u8>, b: Seq<u8>) -> bool {
    a.len() <= b.len() && a == b.skip(b.len() - a.len())
}

/// Everything is what is left after nothing is taken.
pub proof fn lemma_suffix_refl(a: Seq<u8>)
    ensures
        is_suffix(a, a),
{
    assert(a =~= a.skip(0));
}

/// What is left of what is left is what is left.
pub proof fn lemma_suffix_trans(a: Seq<u8>, b: Seq<u8>, c: Seq<u8>)
    requires
        is_suffix(a, b),
        is_suffix(b, c),
    ensures
        is_suffix(a, c),
{
    assert(a =~= c.skip(c.len() - a.len()));
}

/// The eight bytes of an `i64` in big-endian order.
pub open spec fn be64(n: i64) -> Seq<u8> {
    let v = n as u64;
    seq![
        (v >> 56u64) as u8,
        (v >> 48u64) as u8,
        (v >> 40u64) as u8,
        (v >> 32u64) as u8,
        (v >> 24u64) as u8,
        (v >> 16u64) as u8,
        (v >> 8u64) as u8,
        v as u8,
    ]
}

/// The `i64` whose big-endian bytes are the first eight of `s`.
pub open spec fn be64_value(s: Seq<u8>) -> i64
    recommends
        s.len() >= 8,
{
    ((s[0] as u64) << 56u64 | (s[1] as u64) << 48u64 | (s[2] as u64) << 40u64 | (s[3] as u64)
        << 32u64 | (s[4] as u64) << 24u64 | (s[5] as u64) << 16u64 | (s[6] as u64) << 8u64 | (
    s[7] as u64)) as i64
}

/// An `i64` reads back from its big-endian bytes, whatever follows them.
pub proof fn lemma_be64_roundtrip(n: i64, rest: Seq<u8>)
    ensures
        be64_value(be64(n) + rest) == n,
        be64(n).len() == 8,
{
    let s = be64(n) + rest;
    let v = n as u64;
    assert(s[0] == (v >> 56u64) as u8 && s[1] == (v >> 48u64) as u8 && s[2] == (v >> 40u64) as u8
        && s[3] == (v >> 32u64) as u8 && s[4] == (v >> 24u64) as u8 && s[5] == (v >> 16u64) as u8
        && s[6] == (v >> 8u64) as u8 && s[7] == v as u8);
    assert(((((v >> 56u64) as u8) as u64) << 56u64 | (((v >> 48u64) as u8) as u64) << 48u64 | (((v
        >> 40u64) as u8) as u64) << 40u64 | (((v >> 32u64) as u8) as u64) << 32u64 | (((v
        >> 24u64) as u8) as u64) << 24u64 | (((v >> 16u64) as u8) as u64) << 16u64 | (((v
        >> 8u64) as u8) as u64) << 8u64 | ((v as u8) as u64)) == v) by (bit_vector);
    assert((v as i64) == n) by (bit_vector)
        requires
            v == n as u64,
    ;
}

/// The eight bytes of an `i64` in little-endian order.
pub open spec fn le64(n: i64) -> Seq<u8> {
    be64(n).reverse()
}

/// The `i64` whose little-endian bytes are the first eight of `s`.
pub open spec fn le64_value(s: Seq<u8>) -> i64
    recommends
        s.len() >= 8,
{
    be64_value(s.take(8).reverse())
}

/// Writes the little-endian bytes of an `i64`.
pub fn le64_bytes(n: i64) -> (r: Vec<u8>)
    ensures
        r@ == le64(n),
{
    let v: u64 = #[verifier::truncate] (n as u64);
    let mut r: Vec<u8> = Vec::new();
    let mut i: u64 = 0;
    while i < 8
        invariant
            i <= 8,
            v == n as u64,
            r@.len() == i,
            forall|j: int| 0 <= j < i ==> #[trigger] r@[j] == le64(n)[j],
        decreases 8 - i,
    {
        let b = #[verifier::truncate] ((v >> (8 * i)) as u8);
        proof {
            assert(le64(n)[i as int] == be64(n)[7 - i]);
            assert(i == 0 ==> (v >> (8 * i)) == v) by (bit_vector);
            assert(i == 1 ==> (v >> (8 * i)) == v >> 8u64) by (bit_vector);
            assert(i == 2 ==> (v >> (8 * i)) == v >> 16u64) by (bit_vector);
            assert(i == 3 ==> (v >> (8 * i)) == v >> 24u64) by (bit_vector);
            assert(i == 4 ==> (v >> (8 * i)) == v >> 32u64) by (bit_vector);
            assert(i == 5 ==> (v >> (8 * i)) == v >> 40u64) by (bit_vector);
            assert(i == 6 ==> (v >> (8 * i)) == v >> 48u64) by (bit_vector);
            assert(i == 7 ==> (v >> (8 * i)) == v >> 56u64) by (bit_vector);
        }
        r.push(b);
        i += 1;
    }
    assert(r@ =~= le64(n));
    r
}

/// Reads the `i64` whose little-endian bytes are the first eight of `s`.
pub fn le64_read(s: &[u8]) -> (r: i64)
    requires
        s@.len() >= 8,
    ensures
        r == le64_value(s@),
{
    let ghost t = s@.take(8).reverse();
    assert(t[0] == s@[7] && t[1] == s@[6] && t[2] == s@[5] && t[3] == s@[4] && t[4] == s@[3]
        && t[5] == s@[2] && t[6] == s@[1] && t[7] == s@[0]);
    let v: u64 = (s[7] as u64) << 56u64 | (s[6] as u64) << 48u64 | (s[5] as u64) << 40u64 | (
    s[4] as u64) << 32u64 | (s[3] as u64) << 24u64 | (s[2] as u64) << 16u64 | (s[1] as u64)
        << 8u64 | (s[0] as u64);
    #[verifier::truncate]
    (v as i64)
}

/// Appends a byte, as `bytes::BufMut::put_u8` does on a `Vec<u8>`.
pub fn put_u8(buf: &mut Vec<u8>, n: u8)
    ensures
        final(buf)@ == old(buf)@.push(n),
{
    buf.push(n);
}

/// Takes the first byte, as `bytes::Buf::try_get_u8` does on a `&[u8]`.
pub fn try_get_u8(buf: &mut &[u8]) -> (r: Option<u8>)
    ensures
        old(buf)@.len() == 0 ==> r is None && final(buf)@ == old(buf)@,
        old(buf)@.len() > 0 ==> r == Some(old(buf)@[0]) && final(buf)@ == old(buf)@.drop_first(),
{
    if buf.len() == 0 {
        return None;
    }
    let b = buf[0];
    let n = buf.len();
    *buf = &buf[1..n];
    Some(b)
}

/// The square root of `n` rounded down, as `u32::isqrt` computes it: the
/// `r` with `r * r <= n < (r + 1) * (r + 1)`.
pub fn isqrt_u32(n: u32) -> (r: u32)
    ensures
        r * r <= n < (r + 1) * (r + 1),
{
    let n64 = n as u64;
    let mut lo: u64 = 0;
    let mut hi: u64 = 0x1_0000;
    assert(hi * hi == 0x1_0000_0000) by (nonlinear_arith)
        requires
            hi == 0x1_0000,
    ;
    while hi - lo > 1
        invariant
            lo < hi <= 0x1_0000,
            lo * lo <= n64,
            n64 < hi * hi,
            n64 == n,
        decreases hi - lo,
    {
        let mid = lo + (hi - lo) / 2;
        assert(mid * mid <= 0x1_0000 * 0x1_0000) by (nonlinear_arith)
            requires
                mid <= 0x1_0000,
        ;
        if mid * mid <= n64 {
            lo = mid;
        } else {
            hi = mid;
        }
    }
    assert(hi == lo + 1);
    lo as u32
}

} // verus!
