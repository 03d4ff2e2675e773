//! Delta encoding of moves in nibbles: stones relative to a moving origin,
//! numbered so that nearby positions and common shapes take few nibbles.
use super::direction::{Direction, Stone};
use super::moves::Move;
use super::nibble::{
    has_rem, lemma_nib_varint_parse_consumes, lemma_nib_varint_roundtrip_u32, lemma_varint_nibbles_shape, nib_varint_parse, varint_nibbles, NibbleReader, NibbleWriter};
use super::moves::{lemma_reversed, step};
use super::plain::lemma_direction_value;
use super::point::{
    d4_point, d4c_point, lemma_d4_bound, lemma_d4_point, lemma_d4c_bound, lemma_d4c_neg, lemma_d4c_point, Point,
    MAX_CENTROSYMMETRIC_INDEX,
};
use super::record::in_bounds;
use crate::codec::{is_suffix, lemma_suffix_refl, lemma_suffix_trans};
use vstd::prelude::*;

verus! {

/// The kind nibble of a one-stone move in the delta encoding.
pub const MOVE_PLACE_SINGLE: u32 = 4;

/// The point with zero coordinates.
pub open spec fn origin_point() -> Point {
    Point { x: 0, y: 0 }
}

/// Whether both coordinates fit in an `i16`.
pub open spec fn fits(x: int, y: int) -> bool {
    i16::MIN <= x <= i16::MAX && i16::MIN <= y <= i16::MAX
}

/// `a + (dx, dy)`, if it is on the board.
pub open spec fn shifted(a: Point, dx: int, dy: int) -> Option<Point> {
    if fits(a.x + dx, a.y + dy) {
        Some(Point { x: (a.x + dx) as i16, y: (a.y + dy) as i16 })
    } else {
        None
    }
}

/// `a - b`, as a point (the caller makes sure it fits).
pub open spec fn diff(a: Point, b: Point) -> Point {
    Point { x: (a.x - b.x) as i16, y: (a.y - b.y) as i16 }
}

/// The midpoint of two points, rounded towards negative infinity.
pub open spec fn midpoint(a: Point, b: Point) -> Point {
    Point { x: ((a.x + b.x) / 2) as i16, y: ((a.y + b.y) / 2) as i16 }
}

/// The third point of a winning row from `p` in direction `d`, counted
/// from the end a canonical direction leaves from, and that direction.
pub open spec fn win_anchor(p: Point, d: Direction) -> (Point, Direction) {
    if d.canonical() {
        (Point { x: (p.x + 2 * d.dx()) as i16, y: (p.y + 2 * d.dy()) as i16 }, d)
    } else {
        (Point { x: (p.x + 3 * d.dx()) as i16, y: (p.y + 3 * d.dy()) as i16 }, d.reversed())
    }
}

/// Whether `p - o` fits and lies in the range of `d4_index`.
pub open spec fn d4_delta_ok(p: Point, o: Point) -> bool {
    fits(p.x - o.x, p.y - o.y) && diff(p, o).in_d4_range()
}

/// Whether a move can be delta encoded from origin `o`.
pub open spec fn delta_ok(m: Move, o: Point) -> bool {
    match m {
        Move::Place(p1, Some(p2)) => fits(p2.x - p1.x, p2.y - p1.y) && p1 != p2 && d4_delta_ok(
            midpoint(p1, p2),
            o,
        ),
        Move::Place(p1, None) => d4_delta_ok(p1, o),
        Move::Win(p, d) => fits(p.x + 3 * d.dx(), p.y + 3 * d.dy()) && d4_delta_ok(
            win_anchor(p, d).0,
            o,
        ),
        _ => true,
    }
}

/// The origin after a move: the midpoint of a two-stone move, the stone
/// of a one-stone move, unchanged otherwise.
pub open spec fn origin_after(m: Move, o: Point) -> Point {
    match m {
        Move::Place(p1, Some(p2)) => midpoint(p1, p2),
        Move::Place(p1, None) => p1,
        _ => o,
    }
}

/// The nibbles of a move delta encoded from origin `o`.
pub open spec fn delta_nibbles(m: Move, o: Point) -> Seq<u8> {
    match m {
        Move::Place(p1, Some(p2)) => varint_nibbles(diff(p2, p1).d4c_spec() as nat)
            + varint_nibbles(diff(midpoint(p1, p2), o).d4_spec() as nat),
        Move::Place(p1, None) => seq![0u8, 4u8] + varint_nibbles(diff(p1, o).d4_spec() as nat),
        Move::Pass => seq![0u8, 0u8],
        Move::Win(p, d) => {
            let (t, d2) = win_anchor(p, d);
            seq![0u8, 1u8, d2.value()] + varint_nibbles(diff(t, o).d4_spec() as nat)
        },
        Move::Draw => seq![0u8, 2u8],
        Move::Resign(s) => seq![0u8, 3u8, s.value()],
    }
}

/// The point numbered `n` by `d4_index`, if there is one.
pub open spec fn d4_point_of(n: nat) -> Option<Point> {
    if n <= 2 * MAX_CENTROSYMMETRIC_INDEX {
        Some(d4_point(n as int))
    } else {
        None
    }
}

/// Reads a three-bit varint and the point it numbers under `d4_index`.
pub open spec fn read_d4(nibs: Seq<u8>) -> Option<(Point, nat)> {
    match nib_varint_parse(nibs, 11) {
        None => None,
        Some((n, k)) => match d4_point_of(n) {
            None => None,
            Some(p) => Some((p, k)),
        },
    }
}

/// The stone numbered `n`, if there is one.
pub open spec fn stone_of_value(n: u8) -> Option<Stone> {
    if n == 0 {
        Some(Stone::Black)
    } else if n == 1 {
        Some(Stone::White)
    } else {
        None
    }
}

/// Reads the rest of a winning row after its kind: the canonical
/// direction, then the third point of the row relative to origin `o`.
pub open spec fn delta_parse_win(r: Seq<u8>, o: Point) -> Option<(Move, nat)> {
    if r.len() == 0 || r[0] >= 8 {
        None
    } else {
        match Direction::from_value(r[0]) {
            None => None,
            Some(d) => if !d.canonical() {
                None
            } else {
                match read_d4(r.skip(1)) {
                    None => None,
                    Some((delta, k)) => match shifted(o, delta.x as int, delta.y as int) {
                        None => None,
                        Some(third) => match shifted(third, -2 * d.dx(), -2 * d.dy()) {
                            None => None,
                            Some(first) => Some((Move::Win(first, d), 1 + k)),
                        },
                    },
                }
            },
        }
    }
}

/// Reads the kind and body of a move whose first varint was 0, from
/// origin `o`. Gives the move, the origin after it and the nibbles consumed.
pub open spec fn delta_parse_kind(r: Seq<u8>, o: Point) -> Option<(Move, Point, nat)> {
    match nib_varint_parse(r, 11) {
        None => None,
        Some((kind, k2)) => {
            let r2 = r.skip(k2 as int);
            if kind == 0 {
                Some((Move::Pass, o, k2))
            } else if kind == 1 {
                match delta_parse_win(r2, o) {
                    None => None,
                    Some((m, k3)) => Some((m, o, k2 + k3)),
                }
            } else if kind == 2 {
                Some((Move::Draw, o, k2))
            } else if kind == 3 {
                if r2.len() == 0 || r2[0] >= 8 {
                    None
                } else {
                    match stone_of_value(r2[0]) {
                        None => None,
                        Some(s) => Some((Move::Resign(s), o, k2 + 1)),
                    }
                }
            } else if kind == 4 {
                match read_d4(r2) {
                    None => None,
                    Some((delta, k3)) => match shifted(o, delta.x as int, delta.y as int) {
                        None => None,
                        Some(o2) => Some((Move::Place(o2, None), o2, k2 + k3)),
                    },
                }
            } else {
                None
            }
        },
    }
}

/// Reads the origin step and places the stones of a two-stone move of the
/// given shape, from origin `o`.
pub open spec fn delta_parse_pair(r: Seq<u8>, o: Point, shape: Point) -> Option<(Move, Point, nat)> {
    match read_d4(r) {
        None => None,
        Some((delta, k2)) => match shifted(o, delta.x as int, delta.y as int) {
            None => None,
            Some(o2) => match shifted(o2, (shape.x + 1) / 2, (shape.y + 1) / 2) {
                None => None,
                Some(p2) => match shifted(p2, -shape.x, -shape.y) {
                    None => None,
                    Some(p1) => Some((Move::Place(p1, Some(p2)), o2, k2)),
                },
            },
        },
    }
}

/// Reads a delta encoded move from the nibbles `nibs`, from origin `o`;
/// `first` reads a lone 0 as a stone at the origin of the board.
/// Gives the move, the origin after it and the nibbles consumed.
pub open spec fn delta_parse(nibs: Seq<u8>, o: Point, first: bool) -> Option<(Move, Point, nat)> {
    match nib_varint_parse(nibs, 11) {
        None => None,
        Some((x, k1)) => {
            let r1 = nibs.skip(k1 as int);
            if x == 0 {
                if first && !has_rem(r1) {
                    Some((Move::Place(origin_point(), None), o, k1))
                } else {
                    match delta_parse_kind(r1, o) {
                        None => None,
                        Some((m, o2, k)) => Some((m, o2, k1 + k)),
                    }
                }
            } else if x > MAX_CENTROSYMMETRIC_INDEX {
                None
            } else {
                match delta_parse_pair(r1, o, d4c_point(x as int)) {
                    None => None,
                    Some((m, o2, k)) => Some((m, o2, k1 + k)),
                }
            }
        },
    }
}

/// A delta encoded move read consumes at least one nibble and no more
/// than there are.
pub proof fn lemma_delta_parse_consumes(nibs: Seq<u8>, o: Point, first: bool)
    ensures
        delta_parse(nibs, o, first) matches Some((m, o2, k)) ==> 1 <= k <= nibs.len(),
{
    lemma_nib_varint_parse_consumes(nibs, 11);
    if let Some((x, k1)) = nib_varint_parse(nibs, 11) {
        let r1 = nibs.skip(k1 as int);
        lemma_nib_varint_parse_consumes(r1, 11);
        if let Some((kind, k2)) = nib_varint_parse(r1, 11) {
            let r2 = r1.skip(k2 as int);
            lemma_nib_varint_parse_consumes(r2, 11);
            if r2.len() > 0 {
                lemma_nib_varint_parse_consumes(r2.skip(1), 11);
            }
        }
    }
}

/// Whether the points of a move, and origin `o`, lie within bounds, the
/// stones of a two-stone move apart and a winning row wholly on the board.
pub open spec fn delta_fits(m: Move, o: Point) -> bool {
    &&& in_bounds(o)
    &&& match m {
        Move::Place(p1, Some(p2)) => in_bounds(p1) && in_bounds(p2) && p1 != p2,
        Move::Place(p1, None) => in_bounds(p1),
        Move::Win(p, d) => in_bounds(p) && (step(p, d, 5) matches Some(q) && in_bounds(q)),
        _ => true,
    }
}

/// A point other than the origin has a positive number under
/// `d4_centrosymmetric_index`.
proof fn lemma_d4c_positive(p: Point)
    requires
        p.x != 0 || p.y != 0,
    ensures
        p.d4c_spec() >= 1,
{
    let s = p.ring();
    assert(s >= 1);
    assert(2 * s * s - 2 * s >= 0) by (nonlinear_arith)
        requires
            s >= 1,
    ;
    assert(p.ring_offset() >= 0);
}

/// `d4c_point` gives back the shape of two stones, or its opposite.
proof fn lemma_shape_point(s: Point)
    requires
        -0x7fff <= s.x <= 0x7fff,
        -0x7fff <= s.y <= 0x7fff,
    ensures
        d4c_point(s.d4c_spec()) == s || d4c_point(s.d4c_spec()).is_opposite_of(s),
{
    if s.is_canonical_rep() {
        lemma_d4c_point(s);
    } else {
        let t = Point { x: -s.x as i16, y: -s.y as i16 };
        lemma_d4c_neg(s, t);
        lemma_d4c_point(t);
    }
}

/// Reading back a delta encoded two-stone move gives the same stones,
/// perhaps in the other order.
proof fn lemma_delta_roundtrip_pair(p1: Point, p2: Point, o: Point, first: bool, rest: Seq<u8>)
    requires
        delta_fits(Move::Place(p1, Some(p2)), o),
    ensures
        delta_parse(delta_nibbles(Move::Place(p1, Some(p2)), o) + rest, o, first) matches Some(
            (m2, o2, k),
        ) && m2.same_as(Move::Place(p1, Some(p2))) && o2 == midpoint(p1, p2) && k
            == delta_nibbles(Move::Place(p1, Some(p2)), o).len(),
{
    let m = Move::Place(p1, Some(p2));
    let s = diff(p2, p1);
    let mid = midpoint(p1, p2);
    let delta = diff(mid, o);
    lemma_d4c_bound(s);
    lemma_d4_bound(delta);
    lemma_d4c_positive(s);
    lemma_d4_point(delta);
    lemma_shape_point(s);
    let x = s.d4c_spec();
    let y = delta.d4_spec();
    let a = varint_nibbles(x as nat);
    let b = varint_nibbles(y as nat);
    let nibs = delta_nibbles(m, o) + rest;
    assert(nibs =~= a + (b + rest));
    lemma_nib_varint_roundtrip_u32(x as u32, b + rest);
    assert(nibs.skip(a.len() as int) =~= b + rest);
    lemma_nib_varint_roundtrip_u32(y as u32, rest);
    assert(read_d4(b + rest) == Some((delta, b.len())));
    assert(shifted(o, delta.x as int, delta.y as int) == Some(mid));
    let sh = d4c_point(x);
    if sh == s {
        assert(shifted(mid, (sh.x + 1) / 2, (sh.y + 1) / 2) == Some(p2));
        assert(shifted(p2, -sh.x, -sh.y) == Some(p1));
    } else {
        assert(shifted(mid, (sh.x + 1) / 2, (sh.y + 1) / 2) == Some(p1));
        assert(shifted(p1, -sh.x, -sh.y) == Some(p2));
    }
}

/// Reading back a delta encoded one-stone move gives the stone.
proof fn lemma_delta_roundtrip_single(p1: Point, o: Point, first: bool, rest: Seq<u8>)
    requires
        delta_fits(Move::Place(p1, None), o),
    ensures
        delta_parse(delta_nibbles(Move::Place(p1, None), o) + rest, o, first) == Some(
            (Move::Place(p1, None), p1, delta_nibbles(Move::Place(p1, None), o).len()),
        ),
{
    let delta = diff(p1, o);
    lemma_d4_bound(delta);
    lemma_d4_point(delta);
    let y = delta.d4_spec();
    let b = varint_nibbles(y as nat);
    let nibs = delta_nibbles(Move::Place(p1, None), o) + rest;
    lemma_nib_varint_roundtrip_u32(y as u32, rest);
    lemma_nib_varint_roundtrip_u32(0, nibs.skip(1));
    lemma_nib_varint_roundtrip_u32(4, b + rest);
    assert(varint_nibbles(0) =~= seq![0u8]);
    assert(varint_nibbles(4) =~= seq![4u8]);
    assert(nibs =~= seq![0u8] + nibs.skip(1));
    assert(nibs.skip(1) =~= seq![4u8] + (b + rest));
    assert(nibs.skip(1).skip(1) =~= b + rest);
    assert(read_d4(b + rest) == Some((delta, b.len())));
}

/// Reading back a delta encoded move without a point: its kind and, for a
/// resignation, the stone.
proof fn lemma_delta_roundtrip_plain(m: Move, o: Point, first: bool, rest: Seq<u8>)
    requires
        m is Pass || m is Draw || m is Resign,
    ensures
        delta_parse(delta_nibbles(m, o) + rest, o, first) == Some((m, o, delta_nibbles(m, o).len())),
{
    let nibs = delta_nibbles(m, o) + rest;
    let t = nibs.skip(1);
    assert(varint_nibbles(0) =~= seq![0u8]);
    assert(varint_nibbles(2) =~= seq![2u8]);
    assert(varint_nibbles(3) =~= seq![3u8]);
    lemma_nib_varint_roundtrip_u32(0, t);
    assert(nibs =~= seq![0u8] + t);
    let k: u32 = if m is Pass {
        0
    } else if m is Draw {
        2
    } else {
        3
    };
    lemma_nib_varint_roundtrip_u32(k, t.skip(1));
    assert(t =~= seq![k as u8] + t.skip(1));
    if let Move::Resign(st) = m {
        assert(t.skip(1)[0] == st.value());
        assert(t.skip(1).len() >= 1);
    }
}

/// Reading back a delta encoded winning row gives the same row, perhaps
/// from its other end.
proof fn lemma_delta_roundtrip_win(p: Point, d: Direction, o: Point, first: bool, rest: Seq<u8>)
    requires
        delta_fits(Move::Win(p, d), o),
    ensures
        delta_parse(delta_nibbles(Move::Win(p, d), o) + rest, o, first) matches Some((m2, o2, k))
            && m2.same_as(Move::Win(p, d)) && o2 == o && k == delta_nibbles(Move::Win(p, d), o).len(),
{
    let m = Move::Win(p, d);
    let (t, d2) = win_anchor(p, d);
    let delta = diff(t, o);
    lemma_reversed(d);
    lemma_direction_value(d2);
    assert(-1 <= d.dx() <= 1 && -1 <= d.dy() <= 1);
    assert(in_bounds(t));
    lemma_d4_bound(delta);
    lemma_d4_point(delta);
    let y = delta.d4_spec();
    let b = varint_nibbles(y as nat);
    let nibs = delta_nibbles(m, o) + rest;
    let t1 = nibs.skip(1);
    let t2 = t1.skip(1);
    assert(varint_nibbles(0) =~= seq![0u8]);
    assert(varint_nibbles(1) =~= seq![1u8]);
    lemma_nib_varint_roundtrip_u32(0, t1);
    assert(nibs =~= seq![0u8] + t1);
    lemma_nib_varint_roundtrip_u32(1, t2);
    assert(t1 =~= seq![1u8] + t2);
    assert(t2 =~= seq![d2.value()] + (b + rest));
    assert(t2.skip(1) =~= b + rest);
    lemma_nib_varint_roundtrip_u32(y as u32, rest);
    assert(read_d4(b + rest) == Some((delta, b.len())));
    assert(d2.canonical());
    assert(shifted(o, delta.x as int, delta.y as int) == Some(t));
    if d.canonical() {
        assert(shifted(t, -2 * d2.dx(), -2 * d2.dy()) == Some(p));
    } else {
        let q = step(p, d, 5).unwrap();
        assert(shifted(t, -2 * d2.dx(), -2 * d2.dy()) == Some(q));
        assert(step(q, d2, 5) == Some(p));
    }
}

/// Reading back a delta encoded move gives a move the same as it and the
/// origin after it, and consumes exactly its nibbles, whatever follows.
pub proof fn lemma_delta_roundtrip(m: Move, o: Point, first: bool, rest: Seq<u8>)
    requires
        delta_fits(m, o),
    ensures
        delta_parse(delta_nibbles(m, o) + rest, o, first) matches Some((m2, o2, k)) && m2.same_as(
            m,
        ) && o2 == origin_after(m, o) && k == delta_nibbles(m, o).len(),
        delta_nibbles(m, o).len() >= 2,
{
    match m {
        Move::Place(p1, Some(p2)) => {
            lemma_delta_roundtrip_pair(p1, p2, o, first, rest);
            let s = diff(p2, p1);
            lemma_d4c_bound(s);
            lemma_varint_nibbles_shape(s.d4c_spec() as nat);
            lemma_varint_nibbles_shape(diff(midpoint(p1, p2), o).d4_spec() as nat);
        },
        Move::Place(p1, None) => {
            lemma_delta_roundtrip_single(p1, o, first, rest);
        },
        Move::Win(p, d) => {
            lemma_delta_roundtrip_win(p, d, o, first, rest);
        },
        _ => {
            lemma_delta_roundtrip_plain(m, o, first, rest);
        },
    }
}

impl Point {
    fn minus(self, rhs: Point) -> (r: Point)
        requires
            fits(self.x - rhs.x, self.y - rhs.y),
        ensures
            r == diff(self, rhs),
    {
        Point::new(self.x - rhs.x, self.y - rhs.y)
    }
}

impl Move {
    /// Writes the move delta encoded from `origin`, and moves `origin` on.
    pub fn encode_delta(self, writer: &mut NibbleWriter<'_>, origin: &mut Point)
        requires
            old(writer).wf(),
            delta_ok(self, *old(origin)),
        ensures
            final(writer).wf(),
            final(writer).start == old(writer).start,
            final(writer).nibbles@ == old(writer).nibbles@ + delta_nibbles(self, *old(origin)),
            *final(final(writer).buf) == *final(old(writer).buf),
            *final(origin) == origin_after(self, *old(origin)),
    {
        let ghost start = writer.nibbles@;
        let ghost o = *origin;
        if let Move::Place(p1, p2) = self {
            let new_origin = match p2 {
                Some(p2) => {
                    let shape = p2.minus(p1);
                    writer.write_u32_varint(shape.d4_centrosymmetric_index());
                    p1.midpoint_floor(p2)
                },
                None => {
                    writer.write_u3(0);
                    writer.write_u3(MOVE_PLACE_SINGLE as u8);
                    p1
                },
            };
            let delta_origin = new_origin.minus(*origin);
            *origin = new_origin;
            proof {
                crate::game::point::lemma_d4_bound(delta_origin);
            }
            writer.write_u32_varint(delta_origin.d4_index());
            assert(writer.nibbles@ =~= start + delta_nibbles(self, o));
            return ;
        }
        writer.write_u3(0);

        match self {
            Move::Place(..) => {},
            Move::Pass => {
                writer.write_u3(0);
            },
            Move::Win(p, dir) => {
                writer.write_u3(1);
                let (third, dir) = if dir.is_canonical() {
                    let off = dir.offset(2);
                    (Point::new(p.x + off.x, p.y + off.y), dir)
                } else {
                    let off = dir.offset(3);
                    (Point::new(p.x + off.x, p.y + off.y), dir.opposite())
                };
                writer.write_u3(dir.as_u8());
                let delta = third.minus(*origin);
                proof {
                    crate::game::point::lemma_d4_bound(delta);
                }
                writer.write_u32_varint(delta.d4_index());
            },
            Move::Draw => {
                writer.write_u3(2);
            },
            Move::Resign(stone) => {
                writer.write_u3(3);
                writer.write_u3(stone.as_u8());
            },
        }
        assert(writer.nibbles@ =~= start + delta_nibbles(self, o));
    }

    /// Reads a delta encoded move from `origin`, and moves `origin` on.
    ///
    /// If `first`, a lone 0 stands for a stone at the origin of the board.
    pub fn decode_delta(reader: &mut NibbleReader<'_, '_>, origin: &mut Point, first: bool) -> (r:
        Option<Self>)
        requires
            old(reader).wf(),
        ensures
            final(reader).wf(),
            *final(final(reader).buf) == *final(old(reader).buf),
            is_suffix(final(reader).rest(), old(reader).rest()),
            match delta_parse(old(reader).rest(), *old(origin), first) {
                Some((m, o2, k)) => r == Some(m) && *final(origin) == o2 && k <= old(
                    reader,
                ).rest().len() && final(reader).rest() == old(reader).rest().skip(k as int),
                None => r is None,
            },
    {
        let ghost nibs = reader.rest();
        let x = match reader.read_u32_varint() {
            Some(x) => x,
            None => return None,
        };
        let ghost r1 = reader.rest();
        let ghost k1 = nibs.len() - r1.len();
        assert(r1 =~= nibs.skip(k1));
        let r = if x == 0 {
            if first && !reader.has_remaining() {
                return Some(Move::Place(Point::zero(), None));
            }
            Self::decode_kind(reader, origin)
        } else {
            let shape = match Point::from_d4_centrosymmetric_index(x) {
                Some(s) => s,
                None => return None,
            };
            Self::decode_pair(reader, origin, shape)
        };
        proof {
            lemma_suffix_trans(reader.rest(), r1, nibs);
            assert(forall|k: int| 0 <= k <= r1.len() ==> #[trigger] r1.skip(k) =~= nibs.skip(k1 + k));
        }
        r
    }

    /// Reads the point numbered by a three-bit varint under `d4_index`.
    fn read_d4_point(reader: &mut NibbleReader<'_, '_>) -> (r: Option<Point>)
        requires
            old(reader).wf(),
        ensures
            final(reader).wf(),
            *final(final(reader).buf) == *final(old(reader).buf),
            is_suffix(final(reader).rest(), old(reader).rest()),
            match read_d4(old(reader).rest()) {
                Some((p, k)) => r == Some(p) && k <= old(reader).rest().len() && final(reader).rest()
                    == old(reader).rest().skip(k as int),
                None => r is None,
            },
    {
        let n = match reader.read_u32_varint() {
            Some(n) => n,
            None => return None,
        };
        Point::from_d4_index(n)
    }

    fn decode_pair(reader: &mut NibbleReader<'_, '_>, origin: &mut Point, shape: Point) -> (r: Option<
        Self,
    >)
        requires
            old(reader).wf(),
        ensures
            final(reader).wf(),
            *final(final(reader).buf) == *final(old(reader).buf),
            is_suffix(final(reader).rest(), old(reader).rest()),
            match delta_parse_pair(old(reader).rest(), *old(origin), shape) {
                Some((m, o2, k)) => r == Some(m) && *final(origin) == o2 && k <= old(
                    reader,
                ).rest().len() && final(reader).rest() == old(reader).rest().skip(k as int),
                None => r is None,
            },
    {
        let delta_origin = match Self::read_d4_point(reader) {
            Some(d) => d,
            None => return None,
        };
        *origin = match origin.checked_add(delta_origin) {
            Some(o2) => o2,
            None => return None,
        };
        let p2 = match origin.checked_add(shape.half_ceil()) {
            Some(p2) => p2,
            None => return None,
        };
        let p1 = match p2.checked_sub(shape) {
            Some(p1) => p1,
            None => return None,
        };
        Some(Move::Place(p1, Some(p2)))
    }

    fn decode_win(reader: &mut NibbleReader<'_, '_>, origin: Point) -> (r: Option<Self>)
        requires
            old(reader).wf(),
        ensures
            final(reader).wf(),
            *final(final(reader).buf) == *final(old(reader).buf),
            is_suffix(final(reader).rest(), old(reader).rest()),
            match delta_parse_win(old(reader).rest(), origin) {
                Some((m, k)) => r == Some(m) && k <= old(reader).rest().len() && final(reader).rest()
                    == old(reader).rest().skip(k as int),
                None => r is None,
            },
    {
        let ghost nibs = reader.rest();
        let d = match reader.read_u3() {
            Some(d) => d,
            None => return None,
        };
        let ghost r3 = reader.rest();
        let dir = match Direction::from_u8(d) {
            Some(dir) => dir,
            None => return None,
        };
        if !dir.is_canonical() {
            return None;
        }
        let delta = match Self::read_d4_point(reader) {
            Some(delta) => delta,
            None => {
                proof {
                    lemma_suffix_trans(reader.rest(), r3, nibs);
                }
                return None;
            },
        };
        proof {
            lemma_suffix_trans(reader.rest(), r3, nibs);
            assert(r3 =~= nibs.skip(1));
            assert(reader.rest() =~= nibs.skip(nibs.len() - reader.rest().len()));
        }
        let third = match origin.checked_add(delta) {
            Some(t) => t,
            None => return None,
        };
        let ghost kd = (r3.len() - reader.rest().len()) as nat;
        assert(read_d4(r3) == Some((delta, kd)));
        assert(r3.skip(kd as int) =~= nibs.skip(1 + kd as int));
        let off = dir.offset(-2);
        assert(off.x == -2 * dir.dx() && off.y == -2 * dir.dy());
        match third.checked_add(off) {
            Some(first) => Some(Move::Win(first, dir)),
            None => None,
        }
    }

    fn decode_kind(reader: &mut NibbleReader<'_, '_>, origin: &mut Point) -> (r: Option<Self>)
        requires
            old(reader).wf(),
        ensures
            final(reader).wf(),
            *final(final(reader).buf) == *final(old(reader).buf),
            is_suffix(final(reader).rest(), old(reader).rest()),
            match delta_parse_kind(old(reader).rest(), *old(origin)) {
                Some((m, o2, k)) => r == Some(m) && *final(origin) == o2 && k <= old(
                    reader,
                ).rest().len() && final(reader).rest() == old(reader).rest().skip(k as int),
                None => r is None,
            },
    {
        let ghost nibs = reader.rest();
        let kind = match reader.read_u32_varint() {
            Some(kind) => kind,
            None => return None,
        };
        let ghost r2 = reader.rest();
        let ghost k2 = nibs.len() - r2.len();
        assert(r2 =~= nibs.skip(k2));
        proof {
            lemma_suffix_refl(r2);
        }
        let r = if kind == 0 {
            Some(Move::Pass)
        } else if kind == 1 {
            Self::decode_win(reader, *origin)
        } else if kind == 2 {
            Some(Move::Draw)
        } else if kind == 3 {
            match reader.read_u3() {
                Some(s) => match Stone::from_u8(s) {
                    Some(stone) => Some(Move::Resign(stone)),
                    None => None,
                },
                None => None,
            }
        } else if kind == MOVE_PLACE_SINGLE {
            match Self::read_d4_point(reader) {
                Some(delta_origin) => match origin.checked_add(delta_origin) {
                    Some(o2) => {
                        *origin = o2;
                        Some(Move::Place(o2, None))
                    },
                    None => None,
                },
                None => None,
            }
        } else {
            None
        };
        proof {
            lemma_suffix_trans(reader.rest(), r2, nibs);
            assert(forall|k: int| 0 <= k <= r2.len() ==> #[trigger] r2.skip(k) =~= nibs.skip(k2 + k));
        }
        r
    }
}

} // verus!
