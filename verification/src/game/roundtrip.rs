//! What the record format reads back: the moves and the move index that
//! were written, each move the same as the one written.
use super::delta::{delta_nibbles, delta_parse, diff, lemma_delta_roundtrip, midpoint, origin_after, origin_point, win_anchor};
use super::format::{
    delta_body, delta_moves_nibbles, delta_record_nibbles, delta_replay, encoded_moves, leads_with_origin_stone,
    lemma_legal_delta_ok, lone_origin_stone, plain_record_bytes, record_bytes, record_decode,
};
use super::moves::{lemma_same_as_reflexive, lemma_same_as_symmetric, Move};
use super::nibble::{
    all_nibbles, has_rem, lemma_nib_varint_roundtrip_u32, lemma_unpack_pack, lemma_varint_nibbles_shape, pack_nibbles,
    unpack, varint_nibbles,
};
use super::plain::{lemma_direction_value, lemma_replay_moves, moves_bytes, replay};
use super::point::Point;
use super::record::{in_bounds, lemma_legal_same, lemma_same_placed, placed, RecordEncodingScheme, lemma_legal_seq_take, lemma_same_moves_symmetric, legal, legal_seq, same_moves};
use crate::codec::{lemma_varint_roundtrip_u32, varint_bytes};
use vstd::prelude::*;

verus! {

/// The plain bytes of a legal sequence of moves read back as those moves.
pub proof fn lemma_plain_moves_roundtrip(ms: Seq<Move>)
    requires
        legal_seq(ms),
    ensures
        replay(moves_bytes(ms), Seq::<Move>::empty()) == Some(ms),
{
    lemma_replay_moves(ms, 0);
    assert(ms.take(0) =~= Seq::<Move>::empty());
}

/// A record written in the plain format reads back as the same moves and
/// move index: all moves, or those in the past.
pub proof fn lemma_plain_record_roundtrip(all_moves: Seq<Move>, index: nat, all: bool)
    requires
        legal_seq(all_moves),
        index <= all_moves.len() <= u32::MAX,
    ensures
        record_decode(plain_record_bytes(all_moves, index, all)) == Some(
            (encoded_moves(all_moves, index, all), index),
        ),
{
    let ms = encoded_moves(all_moves, index, all);
    let s = plain_record_bytes(all_moves, index, all);
    if !all {
        lemma_legal_seq_take(all_moves, index as int);
    }
    lemma_plain_moves_roundtrip(ms);
    if all {
        lemma_varint_roundtrip_u32(index as u32, moves_bytes(ms));
        assert(s.skip(1) =~= varint_bytes(index) + moves_bytes(ms));
        assert(s.skip(1).skip(varint_bytes(index).len() as int) =~= moves_bytes(ms));
    } else {
        assert(s.skip(1) =~= moves_bytes(ms));
    }
}

/// The nibbles of delta encoded moves are nibbles.
proof fn lemma_delta_moves_nibbles_shape(ms: Seq<Move>, o: Point)
    ensures
        all_nibbles(delta_moves_nibbles(ms, o)),
    decreases ms.len(),
{
    if ms.len() > 0 {
        lemma_delta_moves_nibbles_shape(ms.drop_first(), origin_after(ms[0], o));
        let m = ms[0];
        match m {
            Move::Place(p1, Some(p2)) => {
                lemma_varint_nibbles_shape(diff(p2, p1).d4c_spec() as nat);
                lemma_varint_nibbles_shape(diff(midpoint(p1, p2), o).d4_spec() as nat);
            },
            Move::Place(p1, None) => {
                lemma_varint_nibbles_shape(diff(p1, o).d4_spec() as nat);
            },
            Move::Win(p, d) => {
                lemma_varint_nibbles_shape(diff(win_anchor(p, d).0, o).d4_spec() as nat);
                lemma_direction_value(win_anchor(p, d).1);
            },
            _ => {},
        }
        let a = delta_nibbles(m, o);
        let b = delta_moves_nibbles(ms.drop_first(), origin_after(m, o));
        assert(all_nibbles(a));
        assert(forall|i: int| 0 <= i < a.len() + b.len() ==> #[trigger] (a + b)[i] == if i < a.len() {
            a[i]
        } else {
            b[i - a.len()]
        });
    }
}

/// Reading back the delta encoded moves of a legal game from move `i` on,
/// after moves the same as those before it, gives moves the same as all of
/// them; only padding may follow.
proof fn lemma_delta_replay(ms: Seq<Move>, i: int, hist: Seq<Move>, o: Point, tail: Seq<u8>)
    requires
        legal_seq(ms),
        0 <= i <= ms.len(),
        same_moves(hist, ms.take(i)),
        in_bounds(o),
        tail == Seq::<u8>::empty() || tail == seq![15u8],
    ensures
        delta_replay(delta_moves_nibbles(ms.skip(i), o) + tail, hist, o) matches Some(r)
            && same_moves(r, ms),
    decreases ms.len() - i,
{
    if i == ms.len() {
        assert(ms.skip(i) =~= Seq::<Move>::empty());
        assert(delta_moves_nibbles(ms.skip(i), o) + tail =~= tail);
        assert(ms.take(i) =~= ms);
    } else {
        let m = ms[i];
        assert(legal(ms.take(i), m));
        lemma_legal_seq_take(ms, i);
        lemma_legal_delta_ok(ms.take(i), m, o);
        let o2 = origin_after(m, o);
        let rest = delta_moves_nibbles(ms.skip(i + 1), o2) + tail;
        assert(ms.skip(i).drop_first() =~= ms.skip(i + 1));
        let nibs = delta_moves_nibbles(ms.skip(i), o) + tail;
        assert(nibs =~= delta_nibbles(m, o) + rest);
        lemma_delta_roundtrip(m, o, hist.len() == 0, rest);
        let (m2, o3, k) = delta_parse(nibs, o, hist.len() == 0).unwrap();
        assert(nibs.skip(k as int) =~= rest);
        lemma_same_as_symmetric(m2, m);
        lemma_same_moves_symmetric(hist, ms.take(i));
        lemma_legal_same(ms.take(i), m, hist, m2);
        assert(same_moves(hist.push(m2), ms.take(i + 1))) by {
            assert forall|j: int| 0 <= j < i + 1 implies #[trigger] hist.push(m2)[j].same_as(
                ms.take(i + 1)[j],
            ) by {
                if j < i {
                    assert(hist[j].same_as(ms.take(i)[j]));
                }
            }
        }
        lemma_delta_replay(ms, i + 1, hist.push(m2), o2, tail);
    }
}

/// A lone stone at the origin of the board reads back from its single 0.
proof fn lemma_lone_origin_roundtrip(ms: Seq<Move>, tail: Seq<u8>)
    requires
        legal_seq(ms),
        lone_origin_stone(ms),
        tail == Seq::<u8>::empty() || tail == seq![15u8],
    ensures
        delta_replay(delta_body(ms) + tail, Seq::<Move>::empty(), origin_point()) == Some(ms),
{
    let os = Move::Place(origin_point(), None);
    let nibs = delta_body(ms) + tail;
    assert(ms.take(0) =~= Seq::<Move>::empty());
    assert(legal(ms.take(0), ms[0]));
    assert(varint_nibbles(0) =~= seq![0u8]);
    lemma_nib_varint_roundtrip_u32(0, tail);
    assert(nibs =~= varint_nibbles(0) + tail);
    assert(nibs.skip(1) =~= tail);
    assert(delta_parse(nibs, origin_point(), true) == Some((os, origin_point(), 1nat)));
    assert(Seq::<Move>::empty().push(os) =~= ms);
    assert(!has_rem(tail));
    assert(delta_replay(tail, ms, origin_point()) == Some(ms));
    assert(has_rem(nibs));
}

/// A stone at the origin of the board left out before a two-stone move is
/// put back when the moves are read.
proof fn lemma_leading_origin_roundtrip(ms: Seq<Move>, tail: Seq<u8>)
    requires
        legal_seq(ms),
        leads_with_origin_stone(ms),
        tail == Seq::<u8>::empty() || tail == seq![15u8],
    ensures
        delta_replay(delta_body(ms) + tail, Seq::<Move>::empty(), origin_point()) matches Some(r)
            && same_moves(r, ms),
{
    let os = Move::Place(origin_point(), None);
    let nibs = delta_body(ms) + tail;
    let m = ms[1];
    assert(ms.take(0) =~= Seq::<Move>::empty());
    assert(legal(ms.take(0), ms[0]));
    assert(legal(ms.take(1), m));
    assert(ms.take(1) =~= seq![os]);
    lemma_legal_seq_take(ms, 1);
    lemma_legal_delta_ok(ms.take(1), m, origin_point());
    let o2 = origin_after(m, origin_point());
    let rest = delta_moves_nibbles(ms.skip(2), o2) + tail;
    assert(ms.drop_first().drop_first() =~= ms.skip(2));
    assert(nibs =~= delta_nibbles(m, origin_point()) + rest);
    lemma_delta_roundtrip(m, origin_point(), true, rest);
    let (m2, o3, k) = delta_parse(nibs, origin_point(), true).unwrap();
    assert(nibs.skip(k as int) =~= rest);
    lemma_same_as_symmetric(m2, m);
    lemma_same_as_reflexive(os);
    let pre = Seq::<Move>::empty().push(os);
    assert(same_moves(pre, ms.take(1))) by {
        assert(pre[0].same_as(ms.take(1)[0]));
    }
    lemma_legal_same(ms.take(1), m, pre, m2);
    assert(same_moves(pre.push(m2), ms.take(2))) by {
        assert(pre.push(m2)[0].same_as(ms.take(2)[0]));
        assert(pre.push(m2)[1].same_as(ms.take(2)[1]));
    }
    lemma_delta_replay(ms, 2, pre.push(m2), o2, tail);
}

/// The delta encoded moves of a legal game read back as the same moves.
proof fn lemma_delta_body_roundtrip(ms: Seq<Move>, tail: Seq<u8>)
    requires
        legal_seq(ms),
        tail == Seq::<u8>::empty() || tail == seq![15u8],
    ensures
        all_nibbles(delta_body(ms)),
        delta_replay(delta_body(ms) + tail, Seq::<Move>::empty(), origin_point()) matches Some(r)
            && same_moves(r, ms),
{
    if lone_origin_stone(ms) {
        lemma_lone_origin_roundtrip(ms, tail);
        lemma_same_as_reflexive(ms[0]);
        assert(all_nibbles(delta_body(ms)));
    } else if leads_with_origin_stone(ms) {
        lemma_delta_moves_nibbles_shape(ms.drop_first(), origin_point());
        lemma_leading_origin_roundtrip(ms, tail);
    } else {
        lemma_delta_moves_nibbles_shape(ms, origin_point());
        assert(ms.skip(0) =~= ms);
        assert(same_moves(Seq::<Move>::empty(), ms.take(0)));
        lemma_delta_replay(ms, 0, Seq::<Move>::empty(), origin_point(), tail);
    }
}

/// A legal game written in the delta record format reads back as moves the
/// same as those written, with the same move index.
#[verifier::spinoff_prover]
#[verifier::rlimit(40)]
proof fn lemma_delta_record_roundtrip(all_moves: Seq<Move>, index: nat, all: bool)
    requires
        legal_seq(all_moves),
        index <= all_moves.len() <= u32::MAX,
    ensures
        record_decode(pack_nibbles(delta_record_nibbles(all_moves, index, all))) matches Some(
            (ms2, idx),
        ) && idx == index && same_moves(ms2, encoded_moves(all_moves, index, all)),
        pack_nibbles(delta_record_nibbles(all_moves, index, all)).len() > 0,
        pack_nibbles(delta_record_nibbles(all_moves, index, all))[0] % 16 == (if all {
            3u8
        } else {
            2u8
        }),
{
    let ms = encoded_moves(all_moves, index, all);
    if !all {
        lemma_legal_seq_take(all_moves, index as int);
    }
    let head = if all {
        varint_nibbles(index)
    } else {
        Seq::<u8>::empty()
    };
    let body = delta_body(ms);
    let nibs = delta_record_nibbles(all_moves, index, all);
    let tail = if nibs.len() % 2 == 0 {
        Seq::<u8>::empty()
    } else {
        seq![15u8]
    };
    lemma_delta_body_roundtrip(ms, tail);
    lemma_varint_nibbles_shape(index);
    assert(all_nibbles(nibs)) by {
        let sch = if all {
            3u8
        } else {
            2u8
        };
        assert(nibs =~= seq![sch] + (head + body));
        assert(forall|i: int| 0 <= i < head.len() + body.len() ==> #[trigger] (head + body)[i]
            == if i < head.len() {
            head[i]
        } else {
            body[i - head.len()]
        });
    }
    lemma_unpack_pack(nibs);
    let s = pack_nibbles(nibs);
    assert(unpack(s) =~= nibs + tail);
    assert(s[0] % 16 == unpack(s)[0]);
    let after = unpack(s).skip(1);
    assert(after =~= head + (body + tail));
    if all {
        lemma_nib_varint_roundtrip_u32(index as u32, body + tail);
        assert(after.skip(head.len() as int) =~= body + tail);
    }
}

/// A legal game written in any scheme reads back with the same move index
/// and moves the same as those the scheme encodes (in the plain format the
/// very moves), so that the board at the current move is the same. The
/// first byte written is the scheme's number (its low nibble, in the delta
/// format).
pub proof fn lemma_record_roundtrip(all_moves: Seq<Move>, index: nat, scheme: RecordEncodingScheme)
    requires
        legal_seq(all_moves),
        index <= all_moves.len() <= u32::MAX,
    ensures
        record_decode(record_bytes(all_moves, index, scheme)) matches Some((ms2, idx)) && idx
            == index && same_moves(ms2, encoded_moves(all_moves, index, scheme.all)) && (
        !scheme.delta ==> ms2 == encoded_moves(all_moves, index, scheme.all)) && placed(
            ms2.take(index as int),
        ) == placed(all_moves.take(index as int)),
        record_bytes(all_moves, index, scheme).len() > 0,
        !scheme.delta ==> record_bytes(all_moves, index, scheme)[0] == scheme.value(),
        scheme.delta ==> record_bytes(all_moves, index, scheme)[0] % 16 == scheme.value(),
{
    let ms = encoded_moves(all_moves, index, scheme.all);
    if scheme.delta {
        lemma_delta_record_roundtrip(all_moves, index, scheme.all);
    } else {
        lemma_plain_record_roundtrip(all_moves, index, scheme.all);
        assert forall|i: int| 0 <= i < ms.len() implies #[trigger] ms[i].same_as(ms[i]) by {
            lemma_same_as_reflexive(ms[i]);
        }
    }
    let (ms2, idx) = record_decode(record_bytes(all_moves, index, scheme)).unwrap();
    assert(ms.take(index as int) =~= all_moves.take(index as int));
    assert(same_moves(ms2.take(index as int), ms.take(index as int))) by {
        assert forall|i: int| 0 <= i < index implies #[trigger] ms2.take(index as int)[i].same_as(
            ms.take(index as int)[i],
        ) by {
            assert(ms2[i].same_as(ms[i]));
        }
    }
    lemma_same_placed(ms2.take(index as int), ms.take(index as int));
}

} // verus!
