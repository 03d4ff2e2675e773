//! Points on the board and their numbering.
use super::direction::Direction;
use super::index::{
    lemma_pair_injective, lemma_zigzag_injective, lemma_zigzag_nonneg, pair, szudzik_pair, szudzik_unpair, zigzag, zigzag_decode_16,
    zigzag_decode_32, zigzag_encode_16, zigzag_encode_32,
};
use crate::codec::{is_suffix, lemma_varint_parse_u32_bound, varint_bytes, varint_parse_u32};
use crate::codec::isqrt_u32;
use crate::ext::{put_u32_varint, try_get_u32_varint};
use vstd::prelude::*;

verus! {

/// The largest number that `Point::from_d4_centrosymmetric_index` maps to a point.
pub const MAX_CENTROSYMMETRIC_INDEX: u32 = 2 * 0x8000 * 0x8000 - 2 * 0x8000;

/// Absolute value.
pub open spec fn iabs(a: int) -> int {
    if a < 0 {
        -a
    } else {
        a
    }
}

/// The first number of the ring of points at Chebyshev distance `s >= 1`
/// from the origin; that ring takes the `4 * s` numbers from here on.
pub open spec fn ring_base(s: int) -> int {
    2 * s * s - 2 * s + 1
}

/// The point numbered `i` by `index`.
pub open spec fn point_at(i: int) -> Point {
    choose|p: Point| p.index_spec() == i
}

/// The point numbered `n` by `d4_centrosymmetric_index`, the
/// lexicographically greater one of it and its opposite.
pub open spec fn d4c_point(n: int) -> Point {
    choose|p: Point| p.d4c_spec() == n && p.is_canonical_rep() && p.in_d4_range()
}

/// The point numbered `n` by `d4_index`.
pub open spec fn d4_point(n: int) -> Point {
    choose|p: Point| p.d4_spec() == n && p.in_d4_range()
}

/// A 2D point with integer coordinates.
#[derive(Clone, Copy, Debug, Default, Eq, Hash, PartialEq, Structural)]
pub struct Point {
    /// The east-west coordinate.
    pub x: i16,
    /// The north-south coordinate.
    pub y: i16,
}

impl Point {
    /// Returns the point with zero coordinates.
    pub fn zero() -> (r: Self)
        ensures
            r.x == 0,
            r.y == 0,
    {
        Point { x: 0, y: 0 }
    }

    /// Szudzik's pairing of the zigzag codes of the coordinates.
    pub open spec fn index_spec(self) -> int {
        pair(zigzag(self.x as int), zigzag(self.y as int))
    }

    /// The Chebyshev distance from the origin.
    pub open spec fn ring(self) -> int {
        if iabs(self.x as int) < iabs(self.y as int) {
            iabs(self.y as int)
        } else {
            iabs(self.x as int)
        }
    }

    /// Whether the coordinates have different signs (zero counting as positive).
    pub open spec fn signs_differ(self) -> bool {
        (self.x < 0) != (self.y < 0)
    }

    /// Position of the point within its ring, shared with the opposite point.
    pub open spec fn ring_offset(self) -> int {
        let u = iabs(self.x as int);
        let v = iabs(self.y as int);
        let k = if u <= v {
            2 * u
        } else {
            2 * v + 1
        };
        if k <= 1 {
            k
        } else {
            2 * k - 1 - (if self.signs_differ() {
                1int
            } else {
                0int
            })
        }
    }

    /// The number that `d4_centrosymmetric_index` gives the point.
    pub open spec fn d4c_spec(self) -> int {
        if self.ring() == 0 {
            0
        } else {
            ring_base(self.ring()) + self.ring_offset()
        }
    }

    /// Whether `(x, y) < (0, 0)` in lexicographic order.
    pub open spec fn lex_negative(self) -> bool {
        self.x < 0 || (self.x == 0 && self.y < 0)
    }

    /// Whether the point is the lexicographically greater one of itself and its opposite.
    pub open spec fn is_canonical_rep(self) -> bool {
        !self.lex_negative()
    }

    /// Whether both coordinates lie in `-0x7fff..=0x7fff`.
    pub open spec fn in_d4_range(self) -> bool {
        self.x >= -0x7fff && self.y >= -0x7fff
    }

    /// The signed number whose zigzag code `d4_index` returns.
    pub open spec fn d4_signed(self) -> int {
        let c = (self.d4c_spec() as i32) as int;
        if self.lex_negative() {
            -c
        } else {
            c
        }
    }

    /// The number that `d4_index` gives the point.
    pub open spec fn d4_spec(self) -> int {
        zigzag(self.d4_signed())
    }

    /// Whether `q` has the negated coordinates of `self`.
    pub open spec fn is_opposite_of(self, q: Point) -> bool {
        self.x == -q.x && self.y == -q.y
    }

    /// Creates a point with the given coordinates.
    pub fn new(x: i16, y: i16) -> (r: Self)
        ensures
            r.x == x,
            r.y == y,
    {
        Point { x, y }
    }

    /// Maps the point to a natural number.
    pub fn index(self) -> (r: u32)
        ensures
            r == self.index_spec(),
    {
        szudzik_pair(zigzag_encode_16(self.x), zigzag_encode_16(self.y))
    }

    /// Maps a natural number to a point (undoes `index`).
    pub fn from_index(i: u32) -> (r: Self)
        ensures
            r.index_spec() == i,
            r == point_at(i as int),
    {
        let (x, y) = szudzik_unpair(i);
        let r = Self::new(zigzag_decode_16(x), zigzag_decode_16(y));
        proof {
            lemma_point_at(r);
        }
        r
    }

    /// Maps the point to a natural number, with each orbit under the action
    /// of the dihedral group D_4 mapped to a contiguous block of numbers.
    ///
    /// Negating the number of a point whose number is `2^31` does not
    /// fit in an `i32`; such a point with `(x, y) < (0, 0)` is left out.
    pub fn d4_index(self) -> (r: u32)
        requires
            !(self.d4c_spec() == 0x8000_0000 && self.lex_negative()),
        ensures
            r == self.d4_spec(),
    {
        let c = self.d4_centrosymmetric_index();
        let mut n = c as i32;
        if self.x < 0 || (self.x == 0 && self.y < 0) {
            assert(n != i32::MIN) by {
                assert(c != 0x8000_0000u32 ==> (c as i32) != i32::MIN) by (bit_vector);
            }
            n = -n;
        }
        zigzag_encode_32(n)
    }

    /// Maps a natural number to a point (undoes `d4_index`).
    pub fn from_d4_index(n: u32) -> (r: Option<Self>)
        ensures
            r is Some <==> n <= 2 * MAX_CENTROSYMMETRIC_INDEX,
            r matches Some(p) ==> p.d4_spec() == n && p.in_d4_range() && p == d4_point(n as int),
    {
        let m = zigzag_decode_32(n);
        let a: u32 = if m < 0 {
            (-(m as i64)) as u32
        } else {
            m as u32
        };
        let mut p = match Self::from_d4_centrosymmetric_index(a) {
            Some(p) => p,
            None => return None,
        };
        if m < 0 {
            p.x = -p.x;
            p.y = -p.y;
        }
        proof {
            lemma_d4c_neg(p, Point { x: -p.x as i16, y: -p.y as i16 });
            assert(p.d4_spec() == n);
            lemma_d4_point(p);
        }
        Some(p)
    }

    /// Maps the point to a natural number, with each orbit under the action
    /// of the dihedral group D_4 mapped to a contiguous block of numbers,
    /// and a set of centrosymmetric points mapped to a single number.
    pub fn d4_centrosymmetric_index(self) -> (r: u32)
        ensures
            r == self.d4c_spec(),
    {
        let (x, y) = (self.x as i32, self.y as i32);
        let u: u32 = if x < 0 {
            (-x) as u32
        } else {
            x as u32
        };
        let v: u32 = if y < 0 {
            (-y) as u32
        } else {
            y as u32
        };

        let s = if u < v {
            v
        } else {
            u
        };
        if s == 0 {
            return 0;
        }
        assert(2 * s * s - 2 * s + 1 + 4 * s <= 0xffff_ffff) by (nonlinear_arith)
            requires
                1 <= s <= 0x8000,
        ;
        assert(2 * s * s >= 2 * s) by (nonlinear_arith)
            requires
                1 <= s,
        ;
        let base = 2 * s * s - 2 * s + 1;
        let k = if u <= v {
            2 * u
        } else {
            2 * v + 1
        };
        let neg = (x ^ y) < 0;
        assert(neg == ((x < 0) != (y < 0))) by (bit_vector)
            requires
                neg == ((x ^ y) < 0),
        ;
        let offset = match k {
            0 | 1 => k,
            _ => 2 * k - 1 - (if neg {
                1u32
            } else {
                0u32
            }),
        };
        base + offset
    }

    /// Maps a natural number to a point, the lexicographically greater one in
    /// a set of centrosymmetric points (undoes `d4_centrosymmetric_index`).
    pub fn from_d4_centrosymmetric_index(n: u32) -> (r: Option<Self>)
        ensures
            r is Some <==> n <= MAX_CENTROSYMMETRIC_INDEX,
            r matches Some(p) ==> p.d4c_spec() == n && p.is_canonical_rep() && p.in_d4_range()
                && p.ring() < 0x8000 && p == d4c_point(n as int),
    {
        if n == 0 {
            let p = Self::new(0, 0);
            proof {
                lemma_d4c_point(p);
            }
            return Some(p);
        }
        if n > MAX_CENTROSYMMETRIC_INDEX {
            return None;
        }

        let r = isqrt_u32(2 * n - 1);
        proof {
            lemma_ring_of_index(n as int, r as int, (r as int + 1) / 2);
        }
        let s = (r + 1) / 2;
        let base = 2 * s * s - 2 * s + 1;
        let offset = n - base;

        let s = s as i16;
        let p = match offset {
            0 => Self::new(0, s),
            1 => Self::new(s, 0),
            _ => {
                let k = offset / 2 + 1;
                let h = (k / 2) as i16;
                let (u, v) = if k & 1 == 0 {
                    (h, s)
                } else {
                    (s, h)
                };

                let y = if offset & 1 == 0 {
                    -v
                } else {
                    v
                };
                assert(k & 1 == 0 <==> k % 2 == 0) by (bit_vector);
                assert(offset & 1 == 0 <==> offset % 2 == 0) by (bit_vector);
                Self::new(u, y)
            },
        };
        proof {
            lemma_d4c_point(p);
        }
        Some(p)
    }

    /// Returns the adjacent point `i + 1` steps away in the given direction,
    /// the item at position `i` of the run of adjacent points,
    /// or `None` where that point is off the board.
    pub fn adjacent_iter(self, dir: Direction, i: u16) -> (r: Option<Self>)
        ensures
            ({
                let x = self.x + dir.dx() * (i + 1);
                let y = self.y + dir.dy() * (i + 1);
                if i16::MIN <= x <= i16::MAX && i16::MIN <= y <= i16::MAX {
                    r == Some(Point { x: x as i16, y: y as i16 })
                } else {
                    r is None
                }
            }),
    {
        let n = i as i32 + 1;
        let x = self.x as i32 + match dir {
            Direction::North | Direction::South => 0,
            Direction::Northeast | Direction::East | Direction::Southeast => n,
            _ => -n,
        };
        let y = self.y as i32 + match dir {
            Direction::East | Direction::West => 0,
            Direction::Southeast | Direction::South | Direction::Southwest => n,
            _ => -n,
        };
        assert(x == self.x + dir.dx() * n && y == self.y + dir.dy() * n) by {
            match dir {
                Direction::North => {},
                Direction::Northeast => {},
                Direction::East => {},
                Direction::Southeast => {},
                Direction::South => {},
                Direction::Southwest => {},
                Direction::West => {},
                Direction::Northwest => {},
            }
        }
        if x < i16::MIN as i32 || x > i16::MAX as i32 || y < i16::MIN as i32 || y > i16::MAX
            as i32 {
            None
        } else {
            Some(Self::new(x as i16, y as i16))
        }
    }

    /// Performs checked addition.
    pub fn checked_add(self, rhs: Self) -> (r: Option<Self>)
        ensures
            ({
                let x = self.x + rhs.x;
                let y = self.y + rhs.y;
                if i16::MIN <= x <= i16::MAX && i16::MIN <= y <= i16::MAX {
                    r == Some(Point { x: x as i16, y: y as i16 })
                } else {
                    r is None
                }
            }),
    {
        let x = self.x.checked_add(rhs.x)?;
        let y = self.y.checked_add(rhs.y)?;
        Some(Self::new(x, y))
    }

    /// Performs checked subtraction.
    pub fn checked_sub(self, rhs: Self) -> (r: Option<Self>)
        ensures
            ({
                let x = self.x - rhs.x;
                let y = self.y - rhs.y;
                if i16::MIN <= x <= i16::MAX && i16::MIN <= y <= i16::MAX {
                    r == Some(Point { x: x as i16, y: y as i16 })
                } else {
                    r is None
                }
            }),
    {
        let x = self.x.checked_sub(rhs.x)?;
        let y = self.y.checked_sub(rhs.y)?;
        Some(Self::new(x, y))
    }

    /// Encodes the point to a buffer.
    pub fn encode(self, buf: &mut Vec<u8>)
        ensures
            final(buf)@ == old(buf)@ + varint_bytes(self.index_spec() as nat),
    {
        put_u32_varint(buf, self.index());
    }

    /// Decodes a point from a buffer.
    pub fn decode(buf: &mut &[u8]) -> (r: Option<Self>)
        ensures
            match varint_parse_u32(old(buf)@) {
                Some((v, k)) => r matches Some(p) && p.index_spec() == v && final(buf)@ == old(
                    buf,
                )@.skip(k as int),
                None => r is None,
            },
            is_suffix(final(buf)@, old(buf)@),
    {
        proof {
            lemma_varint_parse_u32_bound(old(buf)@);
        }
        match try_get_u32_varint(buf) {
            Some(i) => Some(Self::from_index(i)),
            None => None,
        }
    }

    /// Calculates the midpoint of two points, rounding towards negative infinity.
    pub fn midpoint_floor(self, rhs: Self) -> (r: Self)
        ensures
            r.x == (self.x + rhs.x) / 2,
            r.y == (self.y + rhs.y) / 2,
    {
        let sx = self.x as i32 + rhs.x as i32;
        let sy = self.y as i32 + rhs.y as i32;
        let x = sx >> 1u32;
        let y = sy >> 1u32;
        assert(x == sx / 2) by {
            assert(2 * (sx >> 1u32) + (sx & 1) == sx && 0 <= (sx & 1) <= 1) by (bit_vector);
        }
        assert(y == sy / 2) by {
            assert(2 * (sy >> 1u32) + (sy & 1) == sy && 0 <= (sy & 1) <= 1) by (bit_vector);
        }
        Self::new(x as i16, y as i16)
    }

    /// Halves the coordinates, rounding towards positive infinity.
    pub fn half_ceil(self) -> (r: Self)
        ensures
            r.x == (self.x + 1) / 2,
            r.y == (self.y + 1) / 2,
    {
        let sx = self.x as i32 + 1;
        let sy = self.y as i32 + 1;
        let x = sx >> 1u32;
        let y = sy >> 1u32;
        assert(x == sx / 2) by {
            assert(2 * (sx >> 1u32) + (sx & 1) == sx && 0 <= (sx & 1) <= 1) by (bit_vector);
        }
        assert(y == sy / 2) by {
            assert(2 * (sy >> 1u32) + (sy & 1) == sy && 0 <= (sy & 1) <= 1) by (bit_vector);
        }
        Self::new(x as i16, y as i16)
    }
}

/// For `n >= 1`, the number `s = ceil(isqrt(2n - 1) / 2)` is the ring that holds `n`.
proof fn lemma_ring_of_index(n: int, r: int, s: int)
    requires
        1 <= n <= MAX_CENTROSYMMETRIC_INDEX,
        0 <= r,
        r * r <= 2 * n - 1 < (r + 1) * (r + 1),
        s == (r + 1) / 2,
    ensures
        1 <= s < 0x8000,
        r < 0x10000,
        2 * s * s <= 0x8000_0000,
        2 * s * s >= 2 * s,
        ring_base(s) <= n < ring_base(s) + 4 * s,
        2 * s * s - 2 * s + 1 == ring_base(s),
{
    assert(r >= 1) by (nonlinear_arith)
        requires
            r * r <= 2 * n - 1 < (r + 1) * (r + 1),
            n >= 1,
            r >= 0,
    ;
    assert(2 * s - 1 <= r <= 2 * s);
    assert((2 * s - 1) * (2 * s - 1) <= r * r) by (nonlinear_arith)
        requires
            1 <= 2 * s - 1 <= r,
    ;
    assert((r + 1) * (r + 1) <= (2 * s + 1) * (2 * s + 1)) by (nonlinear_arith)
        requires
            0 <= r + 1 <= 2 * s + 1,
    ;
    assert((2 * s - 1) * (2 * s - 1) == 4 * (s * s) - 4 * s + 1) by (nonlinear_arith);
    assert((2 * s + 1) * (2 * s + 1) == 4 * (s * s) + 4 * s + 1) by (nonlinear_arith);
    assert(s < 0x8000) by (nonlinear_arith)
        requires
            4 * (s * s) - 4 * s + 1 <= 2 * n - 1,
            n <= 2 * 0x8000 * 0x8000 - 2 * 0x8000,
            s >= 1,
    ;
    assert(2 * s * s == 2 * (s * s)) by (nonlinear_arith);
    assert(2 * s * s <= 0x8000_0000 && 2 * s * s >= 2 * s) by (nonlinear_arith)
        requires
            1 <= s < 0x8000,
    ;
    assert(r < 0x10000) by (nonlinear_arith)
        requires
            r * r <= 2 * n - 1,
            n <= 2 * 0x8000 * 0x8000,
            r >= 0,
    ;
}

/// Opposite points share their centrosymmetric number.
pub proof fn lemma_d4c_neg(p: Point, q: Point)
    requires
        p.is_opposite_of(q),
    ensures
        p.d4c_spec() == q.d4c_spec(),
        p.ring() == q.ring(),
{
}

/// Two points share their number under `index` only if they are equal.
pub proof fn lemma_index_injective(p: Point, q: Point)
    requires
        p.index_spec() == q.index_spec(),
    ensures
        p == q,
{
    lemma_zigzag_nonneg(p.x as int);
    lemma_zigzag_nonneg(p.y as int);
    lemma_zigzag_nonneg(q.x as int);
    lemma_zigzag_nonneg(q.y as int);
    lemma_pair_injective(
        zigzag(p.x as int),
        zigzag(p.y as int),
        zigzag(q.x as int),
        zigzag(q.y as int),
    );
    lemma_zigzag_injective(p.x as int, q.x as int);
    lemma_zigzag_injective(p.y as int, q.y as int);
}

/// Every number under `index` fits in a `u32`.
pub proof fn lemma_index_bound(p: Point)
    ensures
        0 <= p.index_spec() <= u32::MAX,
{
    let a = zigzag(p.x as int);
    let b = zigzag(p.y as int);
    lemma_zigzag_nonneg(p.x as int);
    lemma_zigzag_nonneg(p.y as int);
    assert(b * b + a <= 0xffff_ffff && a * a + a + b <= 0xffff_ffff) by (nonlinear_arith)
        requires
            0 <= a <= 0xffff,
            0 <= b <= 0xffff,
    ;
}

/// Rings take disjoint blocks of numbers.
proof fn lemma_ring_blocks_disjoint(s1: int, o1: int, s2: int, o2: int)
    requires
        1 <= s1,
        1 <= s2,
        0 <= o1 < 4 * s1,
        0 <= o2 < 4 * s2,
        ring_base(s1) + o1 == ring_base(s2) + o2,
    ensures
        s1 == s2,
        o1 == o2,
{
    if s1 < s2 {
        assert(ring_base(s1) + 4 * s1 <= ring_base(s2)) by (nonlinear_arith)
            requires
                1 <= s1 < s2,
        ;
    } else if s2 < s1 {
        assert(ring_base(s2) + 4 * s2 <= ring_base(s1)) by (nonlinear_arith)
            requires
                1 <= s2 < s1,
        ;
    }
}

/// The offset of a point within its ring lies in `0..4 * ring`.
proof fn lemma_ring_offset_bound(p: Point)
    requires
        p.ring() >= 1,
    ensures
        0 <= p.ring_offset() < 4 * p.ring(),
        ring_base(p.ring()) >= 1,
{
    let s = p.ring();
    assert(ring_base(s) >= 1) by (nonlinear_arith)
        requires
            s >= 1,
    ;
}

/// Two points share their centrosymmetric number exactly when they are
/// equal or opposite.
pub proof fn lemma_d4c_equal_iff(p: Point, q: Point)
    ensures
        p.d4c_spec() == q.d4c_spec() <==> (p == q || p.is_opposite_of(q)),
{
    if p == q || p.is_opposite_of(q) {
        if p.is_opposite_of(q) {
            lemma_d4c_neg(p, q);
        }
    } else if p.d4c_spec() == q.d4c_spec() {
        if p.ring() == 0 || q.ring() == 0 {
            if p.ring() >= 1 {
                lemma_ring_offset_bound(p);
            }
            if q.ring() >= 1 {
                lemma_ring_offset_bound(q);
            }
        } else {
            lemma_ring_offset_bound(p);
            lemma_ring_offset_bound(q);
            lemma_ring_blocks_disjoint(p.ring(), p.ring_offset(), q.ring(), q.ring_offset());
            assert(iabs(p.x as int) == iabs(q.x as int) && iabs(p.y as int) == iabs(q.y as int));
        }
    }
}

/// The centrosymmetric number is 0 exactly at the origin; a point at
/// Chebyshev distance `s >= 1` from the origin gets a number in the block
/// `2s^2 - 2s + 1 ..= 2s^2 + 2s` of its ring, the blocks of distinct rings
/// being disjoint.
pub proof fn lemma_d4c_ring_bounds(p: Point, q: Point)
    ensures
        p.d4c_spec() == 0 <==> p.ring() == 0,
        p.ring() >= 1 ==> 2 * p.ring() * p.ring() - 2 * p.ring() + 1 <= p.d4c_spec() <= 2
            * p.ring() * p.ring() + 2 * p.ring(),
        p.ring() >= 1 && q.ring() >= 1 && p.ring() != q.ring() ==> p.d4c_spec() != q.d4c_spec(),
{
    if p.ring() >= 1 {
        lemma_ring_offset_bound(p);
    }
    if q.ring() >= 1 {
        lemma_ring_offset_bound(q);
    }
    if p.ring() >= 1 && q.ring() >= 1 && p.d4c_spec() == q.d4c_spec() {
        lemma_ring_blocks_disjoint(p.ring(), p.ring_offset(), q.ring(), q.ring_offset());
    }
}

/// Every point within `-0x7fff..=0x7fff` has a centrosymmetric number no
/// larger than `MAX_CENTROSYMMETRIC_INDEX`, so it fits in an `i32`.
pub proof fn lemma_d4c_bound(p: Point)
    requires
        p.in_d4_range(),
    ensures
        0 <= p.d4c_spec() <= MAX_CENTROSYMMETRIC_INDEX,
        p.ring() < 0x8000,
{
    if p.ring() >= 1 {
        lemma_ring_offset_bound(p);
        let s = p.ring();
        assert(ring_base(s) + 4 * s - 1 <= 2 * 0x8000 * 0x8000 - 2 * 0x8000) by (nonlinear_arith)
            requires
                1 <= s <= 0x7fff,
        ;
    }
}

/// Two points within `-0x7fff..=0x7fff` share their number under
/// `d4_index` only if they are equal.
pub proof fn lemma_d4_injective(p: Point, q: Point)
    requires
        p.in_d4_range(),
        q.in_d4_range(),
        p.d4_spec() == q.d4_spec(),
    ensures
        p == q,
{
    lemma_d4c_bound(p);
    lemma_d4c_bound(q);
    lemma_zigzag_injective(p.d4_signed(), q.d4_signed());
    assert((p.d4c_spec() as i32) as int == p.d4c_spec());
    assert((q.d4c_spec() as i32) as int == q.d4c_spec());
    if p.ring() >= 1 {
        lemma_ring_offset_bound(p);
    }
    if q.ring() >= 1 {
        lemma_ring_offset_bound(q);
    }
    assert(p.d4c_spec() == q.d4c_spec());
    lemma_d4c_equal_iff(p, q);
}

/// `d4_index` accepts every point within `-0x7fff..=0x7fff`, and its number
/// is one that `from_d4_index` maps back to a point.
pub proof fn lemma_d4_bound(p: Point)
    requires
        p.in_d4_range(),
    ensures
        !(p.d4c_spec() == 0x8000_0000 && p.lex_negative()),
        0 <= p.d4_spec() <= 2 * MAX_CENTROSYMMETRIC_INDEX,
{
    lemma_d4c_bound(p);
}

/// `point_at` undoes `index`.
pub proof fn lemma_point_at(p: Point)
    ensures
        point_at(p.index_spec()) == p,
{
    let q = point_at(p.index_spec());
    assert(q.index_spec() == p.index_spec());
    lemma_index_injective(p, q);
}

/// `d4c_point` undoes `d4_centrosymmetric_index` on the lexicographically
/// greater one of two opposite points.
pub proof fn lemma_d4c_point(p: Point)
    requires
        p.is_canonical_rep(),
        p.in_d4_range(),
    ensures
        d4c_point(p.d4c_spec()) == p,
{
    let q = d4c_point(p.d4c_spec());
    assert(q.d4c_spec() == p.d4c_spec() && q.is_canonical_rep() && q.in_d4_range());
    lemma_d4c_equal_iff(p, q);
}

/// `d4_point` undoes `d4_index` on points within `-0x7fff..=0x7fff`.
pub proof fn lemma_d4_point(p: Point)
    requires
        p.in_d4_range(),
    ensures
        d4_point(p.d4_spec()) == p,
{
    let q = d4_point(p.d4_spec());
    assert(q.d4_spec() == p.d4_spec() && q.in_d4_range());
    lemma_d4_injective(p, q);
}

impl std::ops::Add for Point {
    type Output = Self;

    fn add(self, rhs: Self) -> (r: Self) {
        Point::new(self.x + rhs.x, self.y + rhs.y)
    }
}

impl vstd::std_specs::ops::AddSpecImpl for Point {
    open spec fn obeys_add_spec() -> bool {
        true
    }

    /// Both sums fit in an `i16`.
    open spec fn add_req(self, rhs: Self) -> bool {
        i16::MIN <= self.x + rhs.x <= i16::MAX && i16::MIN <= self.y + rhs.y <= i16::MAX
    }

    open spec fn add_spec(self, rhs: Self) -> Self {
        Point { x: (self.x + rhs.x) as i16, y: (self.y + rhs.y) as i16 }
    }
}

impl std::ops::Sub for Point {
    type Output = Self;

    fn sub(self, rhs: Self) -> (r: Self) {
        Point::new(self.x - rhs.x, self.y - rhs.y)
    }
}

impl vstd::std_specs::ops::SubSpecImpl for Point {
    open spec fn obeys_sub_spec() -> bool {
        true
    }

    /// Both differences fit in an `i16`.
    open spec fn sub_req(self, rhs: Self) -> bool {
        i16::MIN <= self.x - rhs.x <= i16::MAX && i16::MIN <= self.y - rhs.y <= i16::MAX
    }

    open spec fn sub_spec(self, rhs: Self) -> Self {
        Point { x: (self.x - rhs.x) as i16, y: (self.y - rhs.y) as i16 }
    }
}

} // verus!
