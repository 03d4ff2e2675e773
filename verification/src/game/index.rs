//! Zigzag encoding and the Szudzik pairing function, the two bijections
//! under the numbering of board positions.
use crate::codec::isqrt_u32;
use vstd::prelude::*;

verus! {

/// Zigzag encoding: 0, -1, 1, -2, 2, ... become 0, 1, 2, 3, 4, ...
pub open spec fn zigzag(n: int) -> int {
    if n >= 0 {
        2 * n
    } else {
        -2 * n - 1
    }
}

/// Szudzik's pairing of two natural numbers.
pub open spec fn pair(x: int, y: int) -> int {
    if x < y {
        y * y + x
    } else {
        x * x + x + y
    }
}

/// Zigzag encoding never maps two integers to the same number.
pub proof fn lemma_zigzag_injective(a: int, b: int)
    requires
        zigzag(a) == zigzag(b),
    ensures
        a == b,
{
}

/// The zigzag code of an integer is a natural number.
pub proof fn lemma_zigzag_nonneg(a: int)
    ensures
        zigzag(a) >= 0,
        a >= 0 ==> zigzag(a) % 2 == 0,
        a < 0 ==> zigzag(a) % 2 == 1,
{
}

/// A natural number has at most one integer square root rounded down.
pub proof fn lemma_isqrt_unique(n: int, a: int, b: int)
    requires
        0 <= a,
        0 <= b,
        a * a <= n < (a + 1) * (a + 1),
        b * b <= n < (b + 1) * (b + 1),
    ensures
        a == b,
{
    if a < b {
        assert((a + 1) * (a + 1) <= b * b) by (nonlinear_arith)
            requires
                0 <= a < b,
        ;
    } else if b < a {
        assert((b + 1) * (b + 1) <= a * a) by (nonlinear_arith)
            requires
                0 <= b < a,
        ;
    }
}

/// The larger of the two paired numbers is the integer square root of the pair.
pub proof fn lemma_pair_isqrt(x: int, y: int)
    requires
        0 <= x,
        0 <= y,
    ensures
        ({
            let m = if x < y { y } else { x };
            m * m <= pair(x, y) < (m + 1) * (m + 1)
        }),
{
    if x < y {
        assert(y * y + x < (y + 1) * (y + 1)) by (nonlinear_arith)
            requires
                0 <= x < y,
        ;
    } else {
        assert(x * x + x + y < (x + 1) * (x + 1)) by (nonlinear_arith)
            requires
                0 <= y <= x,
        ;
    }
}

/// Szudzik's pairing never maps two pairs of natural numbers to the same number.
pub proof fn lemma_pair_injective(x1: int, y1: int, x2: int, y2: int)
    requires
        0 <= x1,
        0 <= y1,
        0 <= x2,
        0 <= y2,
        pair(x1, y1) == pair(x2, y2),
    ensures
        x1 == x2,
        y1 == y2,
{
    lemma_pair_isqrt(x1, y1);
    lemma_pair_isqrt(x2, y2);
    let m1 = if x1 < y1 { y1 } else { x1 };
    let m2 = if x2 < y2 { y2 } else { x2 };
    lemma_isqrt_unique(pair(x1, y1), m1, m2);
}

pub fn zigzag_encode_16(n: i16) -> (r: u16)
    ensures
        r == zigzag(n as int),
{
    let r = ((n << 1u32) ^ (n >> 15u32)) as u16;
    assert(((n << 1u32) ^ (n >> 15u32)) as u16 == (if n >= 0 { 2 * n } else { -2 * n - 1 }))
        by (bit_vector);
    r
}

pub fn zigzag_decode_16(n: u16) -> (r: i16)
    ensures
        zigzag(r as int) == n,
{
    let mask: u16 = if n & 1 == 0 { 0 } else { 0xffff };
    let r = ((n >> 1u32) ^ mask) as i16;
    assert(zigzag(r as int) == n) by {
        assert((n & 1u16 == 0u16) ==> ((n >> 1u32) ^ (0u16)) as i16 == n / 2) by (bit_vector);
        assert((n & 1u16 == 1u16) ==> ((((n >> 1u32) ^ 0xffffu16) as i16) as int) == -((n + 1) / 2))
            by (bit_vector);
        assert(n & 1u16 == 0u16 || n & 1u16 == 1u16) by (bit_vector);
        assert(n & 1u16 == 0u16 <==> n % 2 == 0) by (bit_vector);
    }
    r
}

pub fn zigzag_encode_32(n: i32) -> (r: u32)
    ensures
        r == zigzag(n as int),
{
    let r = ((n << 1u32) ^ (n >> 31u32)) as u32;
    assert(((n << 1u32) ^ (n >> 31u32)) as u32 == (if n >= 0 { 2 * n } else { -2 * n - 1 }))
        by (bit_vector);
    r
}

pub fn zigzag_decode_32(n: u32) -> (r: i32)
    ensures
        zigzag(r as int) == n,
{
    let mask: u32 = if n & 1 == 0 { 0 } else { 0xffff_ffff };
    let r = ((n >> 1u32) ^ mask) as i32;
    assert(zigzag(r as int) == n) by {
        assert((n & 1u32 == 0u32) ==> ((n >> 1u32) ^ (0u32)) as i32 == n / 2) by (bit_vector);
        assert((n & 1u32 == 1u32) ==> ((((n >> 1u32) ^ 0xffff_ffffu32) as i32) as int) == -((n + 1)
            / 2)) by (bit_vector);
        assert(n & 1u32 == 0u32 || n & 1u32 == 1u32) by (bit_vector);
        assert(n & 1u32 == 0u32 <==> n % 2 == 0) by (bit_vector);
    }
    r
}

pub fn szudzik_pair(x: u16, y: u16) -> (r: u32)
    ensures
        r == pair(x as int, y as int),
{
    let (x, y) = (x as u32, y as u32);
    assert(y * y + x <= 0xffff_ffff && x * x + x + y <= 0xffff_ffff) by (nonlinear_arith)
        requires
            x <= 0xffff,
            y <= 0xffff,
    ;
    if x < y {
        y * y + x
    } else {
        x * x + x + y
    }
}

pub fn szudzik_unpair(z: u32) -> (r: (u16, u16))
    ensures
        pair(r.0 as int, r.1 as int) == z,
{
    let s = isqrt_u32(z);
    assert(s <= 0xffff) by (nonlinear_arith)
        requires
            s * s <= z <= 0xffff_ffff,
    ;
    assert(s * s <= z);
    let t = z - s * s;
    assert(t <= 2 * s) by (nonlinear_arith)
        requires
            z < (s + 1) * (s + 1),
            t == z - s * s,
    ;
    if t < s {
        (t as u16, s as u16)
    } else {
        (s as u16, (t - s) as u16)
    }
}

} // verus!
