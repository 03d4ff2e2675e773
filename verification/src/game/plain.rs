//! The plain wire format of moves: each move a varint, followed by what
//! the kind of move needs.
use super::direction::{Direction, Stone};
use super::index::{lemma_zigzag_nonneg, zigzag};
use super::moves::Move;
use super::point::{lemma_point_at, point_at, Point};
use super::record::{in_bounds, legal, legal_seq};
use crate::codec::{
    is_suffix, lemma_suffix_trans, lemma_varint_bytes_shape, lemma_varint_parse_u32_bound, lemma_varint_roundtrip_u32, put_u8,
    try_get_u8, varint_bytes, varint_parse_u32,
};
use crate::ext::{put_u32_varint, try_get_u32_varint};
use vstd::prelude::*;

verus! {

/// Added to the number of a point to give the varint of a stone placement;
/// the numbers below it leave room for more kinds of moves.
pub const MOVE_PLACE_OFFSET: u32 = 7;

/// The varint of a pass, also closing a one-stone move.
pub const MOVE_PASS: u32 = 0;

/// The varint of a winning row.
pub const MOVE_WIN: u32 = 1;

/// The varint of a draw.
pub const MOVE_DRAW: u32 = 2;

/// The varint of a resignation.
pub const MOVE_RESIGN: u32 = 3;

/// Whether the numbers of the points a move places fit below `u32::MAX`
/// with `MOVE_PLACE_OFFSET` added.
pub open spec fn encodable(m: Move) -> bool {
    match m {
        Move::Place(p1, p2) => p1.index_spec() + 7 <= u32::MAX && (p2 matches Some(q)
            ==> q.index_spec() + 7 <= u32::MAX),
        _ => true,
    }
}

/// The bytes of a move; `compact` leaves out the pass after a one-stone move.
pub open spec fn move_bytes(m: Move, compact: bool) -> Seq<u8> {
    match m {
        Move::Place(p1, p2) => varint_bytes((p1.index_spec() + 7) as nat) + match p2 {
            Some(q) => varint_bytes((q.index_spec() + 7) as nat),
            None => if compact {
                Seq::<u8>::empty()
            } else {
                seq![0u8]
            },
        },
        Move::Pass => seq![0u8],
        Move::Win(p, d) => seq![1u8] + varint_bytes(p.index_spec() as nat) + seq![d.value()],
        Move::Draw => seq![2u8],
        Move::Resign(s) => seq![3u8, s.value()],
    }
}

/// Reads a move from the front of `s`; `first` gives a one-stone move at
/// once. Gives the move and the number of bytes consumed.
pub open spec fn move_parse(s: Seq<u8>, first: bool) -> Option<(Move, nat)> {
    match varint_parse_u32(s) {
        None => None,
        Some((x, k1)) => if x >= 7 {
            let p1 = point_at(x - 7);
            if first {
                Some((Move::Place(p1, None), k1))
            } else {
                match varint_parse_u32(s.skip(k1 as int)) {
                    None => None,
                    Some((x2, k2)) => if x2 >= 7 {
                        Some((Move::Place(p1, Some(point_at(x2 - 7))), k1 + k2))
                    } else if x2 != 0 {
                        None
                    } else {
                        Some((Move::Place(p1, None), k1 + k2))
                    },
                }
            }
        } else if x == 1 {
            match varint_parse_u32(s.skip(k1 as int)) {
                None => None,
                Some((i, k2)) => {
                    let rest = s.skip((k1 + k2) as int);
                    if rest.len() == 0 {
                        None
                    } else {
                        match Direction::from_value(rest[0]) {
                            Some(d) => Some((Move::Win(point_at(i as int), d), k1 + k2 + 1)),
                            None => None,
                        }
                    }
                },
            }
        } else if x == 3 {
            let rest = s.skip(k1 as int);
            if rest.len() == 0 {
                None
            } else if rest[0] == 0 {
                Some((Move::Resign(Stone::Black), k1 + 1))
            } else if rest[0] == 1 {
                Some((Move::Resign(Stone::White), k1 + 1))
            } else {
                None
            }
        } else if x == 0 {
            Some((Move::Pass, k1))
        } else if x == 2 {
            Some((Move::Draw, k1))
        } else {
            None
        },
    }
}

/// The bytes of the moves from position `j` on, the first move compact.
pub open spec fn moves_bytes_from(ms: Seq<Move>, j: int) -> Seq<u8>
    decreases ms.len() - j,
{
    if j < 0 || j >= ms.len() {
        Seq::<u8>::empty()
    } else {
        move_bytes(ms[j], j == 0) + moves_bytes_from(ms, j + 1)
    }
}

/// The bytes of a sequence of moves, the first one compact.
pub open spec fn moves_bytes(ms: Seq<Move>) -> Seq<u8> {
    moves_bytes_from(ms, 0)
}

/// Reads moves until the bytes run out, making each after the moves
/// `hist` and those read before it; fails on a move that cannot be read or
/// made.
pub open spec fn replay(s: Seq<u8>, hist: Seq<Move>) -> Option<Seq<Move>>
    decreases s.len(),
{
    if s.len() == 0 {
        Some(hist)
    } else {
        match move_parse(s, hist.len() == 0) {
            None => None,
            Some((m, k)) => if k == 0 || k > s.len() || !legal(hist, m) {
                None
            } else {
                replay(s.skip(k as int), hist.push(m))
            },
        }
    }
}

/// A move read consumes at least one byte, and no more than are there.
pub proof fn lemma_move_parse_consumes(s: Seq<u8>, first: bool)
    ensures
        move_parse(s, first) matches Some((m, k)) ==> 1 <= k <= s.len(),
{
    lemma_varint_parse_u32_bound(s);
    if let Some((x, k1)) = varint_parse_u32(s) {
        lemma_varint_parse_u32_bound(s.skip(k1 as int));
        if let Some((x2, k2)) = varint_parse_u32(s.skip(k1 as int)) {
            assert(s.skip(k1 as int).skip(k2 as int) =~= s.skip((k1 + k2) as int));
        }
    }
}

/// Every direction reads back from its number.
pub proof fn lemma_direction_value(d: Direction)
    ensures
        Direction::from_value(d.value()) == Some(d),
        d.value() < 8,
{
    match d {
        Direction::North => {},
        Direction::Northeast => {},
        Direction::East => {},
        Direction::Southeast => {},
        Direction::South => {},
        Direction::Southwest => {},
        Direction::West => {},
        Direction::Northwest => {},
    }
}

/// The number of a point where stones may be placed leaves room for the
/// offset of a placement.
pub proof fn lemma_in_bounds_index(p: Point)
    requires
        in_bounds(p),
    ensures
        p.index_spec() + 7 <= u32::MAX,
        p.index_spec() < 0x8000_0000,
{
    let a = zigzag(p.x as int);
    let b = zigzag(p.y as int);
    lemma_zigzag_nonneg(p.x as int);
    lemma_zigzag_nonneg(p.y as int);
    assert(b * b + a < 0x8000_0000 && a * a + a + b < 0x8000_0000) by (nonlinear_arith)
        requires
            0 <= a <= 0x7ffe,
            0 <= b <= 0x7ffe,
    ;
}

/// Every move of a legal sequence can be encoded.
pub proof fn lemma_legal_encodable(hist: Seq<Move>, m: Move)
    requires
        legal(hist, m),
    ensures
        encodable(m),
{
    if let Move::Place(p1, p2) = m {
        lemma_in_bounds_index(p1);
        if let Some(q) = p2 {
            lemma_in_bounds_index(q);
        }
    }
}

proof fn lemma_place_roundtrip(p1: Point, p2: Option<Point>, first: bool, rest: Seq<u8>)
    requires
        encodable(Move::Place(p1, p2)),
        !(first && p2 is Some),
    ensures
        move_parse(move_bytes(Move::Place(p1, p2), first) + rest, first) == Some(
            (Move::Place(p1, p2), move_bytes(Move::Place(p1, p2), first).len()),
        ),
{
    let m = Move::Place(p1, p2);
    let s = move_bytes(m, first) + rest;
    let x = (p1.index_spec() + 7) as u32;
    lemma_point_at(p1);
    let tail = match p2 {
        Some(q) => varint_bytes((q.index_spec() + 7) as nat),
        None => if first {
            Seq::<u8>::empty()
        } else {
            seq![0u8]
        },
    };
    assert(s =~= varint_bytes(x as nat) + (tail + rest));
    lemma_varint_roundtrip_u32(x, tail + rest);
    let k1 = varint_bytes(x as nat).len();
    assert(s.skip(k1 as int) =~= tail + rest);
    match p2 {
        Some(q) => {
            let x2 = (q.index_spec() + 7) as u32;
            lemma_point_at(q);
            lemma_varint_roundtrip_u32(x2, rest);
        },
        None => {
            if !first {
                lemma_varint_roundtrip_u32(0, rest);
                assert(varint_bytes(0) =~= seq![0u8]);
            }
        },
    }
}

proof fn lemma_win_roundtrip(p: Point, d: Direction, rest: Seq<u8>, first: bool)
    ensures
        move_parse(move_bytes(Move::Win(p, d), first) + rest, first) == Some(
            (Move::Win(p, d), move_bytes(Move::Win(p, d), first).len()),
        ),
{
    let s = move_bytes(Move::Win(p, d), first) + rest;
    crate::game::point::lemma_index_bound(p);
    let i = p.index_spec() as u32;
    lemma_varint_roundtrip_u32(1, varint_bytes(i as nat) + seq![d.value()] + rest);
    assert(varint_bytes(1) =~= seq![1u8]);
    lemma_point_at(p);
    lemma_varint_roundtrip_u32(i, seq![d.value()] + rest);
    assert(s =~= varint_bytes(1) + (varint_bytes(i as nat) + seq![d.value()] + rest));
    assert(s.skip(1) =~= varint_bytes(i as nat) + (seq![d.value()] + rest));
    let k2 = varint_bytes(i as nat).len();
    assert(s.skip((1 + k2) as int) =~= seq![d.value()] + rest);
    lemma_direction_value(d);
}

proof fn lemma_simple_roundtrip(m: Move, first: bool, rest: Seq<u8>)
    requires
        m is Pass || m is Draw || m is Resign,
    ensures
        move_parse(move_bytes(m, first) + rest, first) == Some((m, move_bytes(m, first).len())),
{
    let s = move_bytes(m, first) + rest;
    match m {
        Move::Pass => {
            lemma_varint_roundtrip_u32(0, rest);
            assert(varint_bytes(0) =~= seq![0u8]);
        },
        Move::Draw => {
            lemma_varint_roundtrip_u32(2, rest);
            assert(varint_bytes(2) =~= seq![2u8]);
        },
        Move::Resign(st) => {
            lemma_varint_roundtrip_u32(3, seq![st.value()] + rest);
            assert(varint_bytes(3) =~= seq![3u8]);
            assert(s =~= varint_bytes(3) + (seq![st.value()] + rest));
            assert(s.skip(1) =~= seq![st.value()] + rest);
        },
        _ => {},
    }
}

/// Reading a move back from its bytes gives the move and consumes exactly
/// its bytes.
pub proof fn lemma_move_roundtrip(m: Move, first: bool, rest: Seq<u8>)
    requires
        encodable(m),
        !(first && m matches Move::Place(_, Some(_))),
    ensures
        move_parse(move_bytes(m, first) + rest, first) == Some((m, move_bytes(m, first).len())),
        move_bytes(m, first).len() >= 1,
{
    match m {
        Move::Place(p1, p2) => {
            lemma_place_roundtrip(p1, p2, first, rest);
            lemma_varint_bytes_shape((p1.index_spec() + 7) as nat);
        },
        Move::Win(p, d) => lemma_win_roundtrip(p, d, rest, first),
        _ => lemma_simple_roundtrip(m, first, rest),
    }
}

/// The bytes of the moves from `j` on read back as those moves, made
/// after the ones before `j`.
pub proof fn lemma_replay_moves(ms: Seq<Move>, j: int)
    requires
        legal_seq(ms),
        0 <= j <= ms.len(),
    ensures
        replay(moves_bytes_from(ms, j), ms.take(j)) == Some(ms),
    decreases ms.len() - j,
{
    if j == ms.len() {
        assert(ms.take(j) =~= ms);
    } else {
        let m = ms[j];
        assert(legal(ms.take(j), m));
        lemma_legal_encodable(ms.take(j), m);
        let rest = moves_bytes_from(ms, j + 1);
        lemma_move_roundtrip(m, j == 0, rest);
        let s = moves_bytes_from(ms, j);
        assert(s == move_bytes(m, j == 0) + rest);
        assert(s.skip(move_bytes(m, j == 0).len() as int) =~= rest);
        assert(ms.take(j).push(m) =~= ms.take(j + 1));
        lemma_replay_moves(ms, j + 1);
    }
}

/// The bytes of the first `i + 1` moves are those of the first `i`
/// followed by those of move `i`.
pub proof fn lemma_moves_bytes_push(ms: Seq<Move>, i: int, j: int)
    requires
        0 <= j <= i < ms.len(),
    ensures
        moves_bytes_from(ms.take(i + 1), j) == moves_bytes_from(ms.take(i), j) + move_bytes(
            ms[i],
            i == 0,
        ),
    decreases i - j,
{
    if j == i {
        assert(moves_bytes_from(ms.take(i), j) =~= Seq::<u8>::empty());
        assert(moves_bytes_from(ms.take(i + 1), j + 1) =~= Seq::<u8>::empty());
        assert(moves_bytes_from(ms.take(i + 1), j) =~= move_bytes(ms[i], i == 0));
    } else {
        lemma_moves_bytes_push(ms, i, j + 1);
        assert(ms.take(i + 1)[j] == ms.take(i)[j]);
        assert(moves_bytes_from(ms.take(i + 1), j) =~= moves_bytes_from(ms.take(i), j)
            + move_bytes(ms[i], i == 0));
    }
}

impl Move {
    /// Encodes the move to a buffer.
    ///
    /// If `compact`, omits the pass after a 1-stone move.
    pub fn encode(self, buf: &mut Vec<u8>, compact: bool)
        requires
            encodable(self),
        ensures
            final(buf)@ == old(buf)@ + move_bytes(self, compact),
    {
        let ghost start = buf@;
        match self {
            Move::Place(p1, p2) => {
                put_u32_varint(buf, p1.index() + MOVE_PLACE_OFFSET);
                match p2 {
                    Some(q) => {
                        put_u32_varint(buf, q.index() + MOVE_PLACE_OFFSET);
                    },
                    None => {
                        if !compact {
                            put_u8(buf, MOVE_PASS as u8);
                        }
                    },
                }
            },
            Move::Pass => put_u8(buf, MOVE_PASS as u8),
            Move::Win(p, dir) => {
                put_u8(buf, MOVE_WIN as u8);
                p.encode(buf);
                put_u8(buf, dir.as_u8());
            },
            Move::Draw => put_u8(buf, MOVE_DRAW as u8),
            Move::Resign(stone) => {
                put_u8(buf, MOVE_RESIGN as u8);
                put_u8(buf, stone.as_u8());
            },
        }
        assert(buf@ =~= start + move_bytes(self, compact));
    }

    /// Decodes a move from a buffer.
    ///
    /// If `first`, eagerly returns a 1-stone move.
    pub fn decode(buf: &mut &[u8], first: bool) -> (r: Option<Self>)
        ensures
            match move_parse(old(buf)@, first) {
                Some((m, k)) => r == Some(m) && final(buf)@ == old(buf)@.skip(k as int),
                None => r is None,
            },
            is_suffix(final(buf)@, old(buf)@),
    {
        let ghost s = buf@;
        proof {
            lemma_varint_parse_u32_bound(s);
        }
        let x = match try_get_u32_varint(buf) {
            Some(x) => x,
            None => return None,
        };
        let ghost k1 = s.len() - buf@.len();
        assert(buf@ =~= s.skip(k1));
        if x >= MOVE_PLACE_OFFSET {
            let p1 = Point::from_index(x - MOVE_PLACE_OFFSET);

            if first {
                return Some(Move::Place(p1, None));
            }

            let mut p2 = None;
            proof {
                lemma_varint_parse_u32_bound(buf@);
            }
            let ghost s1 = buf@;
            let x2 = match try_get_u32_varint(buf) {
                Some(x2) => x2,
                None => {
                    proof {
                        lemma_suffix_trans(buf@, s1, s);
                    }
                    return None;
                },
            };
            assert(buf@ =~= s.skip(s.len() - buf@.len()));
            if x2 >= MOVE_PLACE_OFFSET {
                p2 = Some(Point::from_index(x2 - MOVE_PLACE_OFFSET));
            } else if x2 != MOVE_PASS {
                return None;
            }
            return Some(Move::Place(p1, p2));
        }
        if x == MOVE_WIN {
            let ghost s2 = buf@;
            let p = match Point::decode(buf) {
                Some(p) => p,
                None => {
                    proof {
                        lemma_suffix_trans(buf@, s2, s);
                    }
                    return None;
                },
            };
            proof {
                lemma_varint_parse_u32_bound(s2);
                assert(buf@ =~= s.skip(s.len() - buf@.len()));
            }
            let d = match try_get_u8(buf) {
                Some(b) => b,
                None => return None,
            };
            assert(buf@ =~= s.skip(s.len() - buf@.len()));
            let dir = match Direction::from_u8(d) {
                Some(dir) => dir,
                None => return None,
            };
            proof {
                crate::game::point::lemma_point_at(p);
            }
            Some(Move::Win(p, dir))
        } else if x == MOVE_RESIGN {
            let n = match try_get_u8(buf) {
                Some(n) => n,
                None => return None,
            };
            assert(buf@ =~= s.skip(s.len() - buf@.len()));
            match Stone::from_u8(n) {
                Some(stone) => Some(Move::Resign(stone)),
                None => None,
            }
        } else if x == MOVE_PASS {
            Some(Move::Pass)
        } else if x == MOVE_DRAW {
            Some(Move::Draw)
        } else {
            None
        }
    }
}

/// A stone within the central 11-by-11 area (both coordinates in
/// `-5..=5`) takes a single byte: a one-stone move in the compact form is
/// one byte, a two-stone move of such stones two.
pub proof fn lemma_central_stone_one_byte(p: Point, q: Point)
    requires
        -5 <= p.x <= 5,
        -5 <= p.y <= 5,
        -5 <= q.x <= 5,
        -5 <= q.y <= 5,
    ensures
        move_bytes(Move::Place(p, None), true).len() == 1,
        move_bytes(Move::Place(p, Some(q)), false).len() == 2,
{
    assert forall|a: Point| -5 <= a.x <= 5 && -5 <= a.y <= 5 implies a.index_spec() + 7 < 0x80 by {
        let u = zigzag(a.x as int);
        let v = zigzag(a.y as int);
        assert(0 <= u <= 10 && 0 <= v <= 10);
        assert(u * u <= 100 && v * v <= 100) by (nonlinear_arith)
            requires
                0 <= u <= 10,
                0 <= v <= 10,
        ;
    }
    assert(varint_bytes((p.index_spec() + 7) as nat).len() == 1);
    assert(varint_bytes((q.index_spec() + 7) as nat).len() == 1);
}

} // verus!
