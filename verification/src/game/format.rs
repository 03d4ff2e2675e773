//! The record format: a scheme, optionally the current move index, and
//! the moves, either in the plain format or delta encoded in nibbles.
use super::moves::Move;
use super::delta::{
    delta_fits, diff, midpoint, win_anchor, delta_nibbles, delta_ok, delta_parse, lemma_delta_parse_consumes, lemma_delta_roundtrip, origin_after,
    origin_point,
};
use super::nibble::{
    all_nibbles, has_rem, lemma_nib_varint_parse_consumes, lemma_nib_varint_roundtrip_u32, lemma_unpack_pack,
    lemma_unpack_suffix, lemma_varint_nibbles_shape, nib_varint_parse, pack_nibbles, unpack, varint_nibbles, NibbleReader, NibbleWriter,
};
use super::point::Point;
use super::plain::{
    lemma_direction_value, lemma_legal_encodable, lemma_move_parse_consumes, lemma_moves_bytes_push, lemma_replay_moves, move_parse, moves_bytes,
    moves_bytes_from, replay,
};
use super::moves::{lemma_same_as_reflexive, lemma_same_as_symmetric, step};
use super::record::{
    in_bounds, lemma_legal_same, lemma_legal_seq_take, lemma_placed_in_bounds, lemma_run_full, lemma_same_moves_symmetric,
    legal, legal_seq, placed, same_moves,
    Record, RecordEncodingScheme,
};
use crate::codec::{
    is_suffix, lemma_suffix_refl, lemma_suffix_trans, lemma_varint_parse_u32_bound, lemma_varint_roundtrip_u32, put_u8,
    varint_bytes, varint_parse_u32,
};
use crate::ext::{put_u32_varint, try_get_u32_varint};
use vstd::prelude::*;

verus! {

/// The moves that a scheme encodes: all of them, or those in the past.
pub open spec fn encoded_moves(all_moves: Seq<Move>, index: nat, all: bool) -> Seq<Move> {
    if all {
        all_moves
    } else {
        all_moves.take(index as int)
    }
}

/// The plain record format: the scheme byte, the index if all moves are
/// encoded, then the moves.
pub open spec fn plain_record_bytes(all_moves: Seq<Move>, index: nat, all: bool) -> Seq<u8> {
    let scheme = if all {
        1u8
    } else {
        0u8
    };
    seq![scheme] + (if all {
        varint_bytes(index)
    } else {
        Seq::<u8>::empty()
    }) + moves_bytes(encoded_moves(all_moves, index, all))
}

/// Reads the plain record format after its scheme byte: the moves and the
/// current move index.
pub open spec fn plain_decode(s: Seq<u8>, all: bool) -> Option<(Seq<Move>, nat)> {
    if all {
        match varint_parse_u32(s) {
            None => None,
            Some((idx, k)) => match replay(s.skip(k as int), Seq::<Move>::empty()) {
                None => None,
                Some(ms) => if idx <= ms.len() {
                    Some((ms, idx))
                } else {
                    None
                },
            },
        }
    } else {
        match replay(s, Seq::<Move>::empty()) {
            None => None,
            Some(ms) => Some((ms, ms.len())),
        }
    }
}

/// Reads a record: the scheme from the low nibble of the first byte,
/// then the rest in the format the scheme names.
pub open spec fn record_decode(s: Seq<u8>) -> Option<(Seq<Move>, nat)> {
    if s.len() == 0 {
        None
    } else {
        let n = s[0] % 16;
        if n > 3 {
            None
        } else if n >= 2 {
            delta_record_decode(s, n % 2 == 1)
        } else {
            plain_decode(s.skip(1), n == 1)
        }
    }
}

/// The nibbles of delta encoded moves, the first from origin `o`.
pub open spec fn delta_moves_nibbles(ms: Seq<Move>, o: Point) -> Seq<u8>
    decreases ms.len(),
{
    if ms.len() == 0 {
        Seq::<u8>::empty()
    } else {
        delta_nibbles(ms[0], o) + delta_moves_nibbles(ms.drop_first(), origin_after(ms[0], o))
    }
}

/// Whether the moves are a lone stone at the origin of the board.
pub open spec fn lone_origin_stone(ms: Seq<Move>) -> bool {
    ms.len() == 1 && ms[0] == Move::Place(origin_point(), None)
}

/// Whether the moves open with a stone at the origin of the board
/// followed by a two-stone move, so that the first can be left out.
pub open spec fn leads_with_origin_stone(ms: Seq<Move>) -> bool {
    ms.len() >= 2 && ms[0] == Move::Place(origin_point(), None) && ms[1] matches Move::Place(
        _,
        Some(_),
    )
}

/// The delta encoded nibbles of the moves: a lone stone at the origin is a
/// single 0, and a stone at the origin before a two-stone move is left out.
pub open spec fn delta_body(ms: Seq<Move>) -> Seq<u8> {
    if lone_origin_stone(ms) {
        seq![0u8]
    } else if leads_with_origin_stone(ms) {
        delta_moves_nibbles(ms.drop_first(), origin_point())
    } else {
        delta_moves_nibbles(ms, origin_point())
    }
}

/// The nibbles of the delta record format: the scheme, the index if all
/// moves are encoded, then the moves.
pub open spec fn delta_record_nibbles(all_moves: Seq<Move>, index: nat, all: bool) -> Seq<u8> {
    let scheme = if all {
        3u8
    } else {
        2u8
    };
    seq![scheme] + (if all {
        varint_nibbles(index)
    } else {
        Seq::<u8>::empty()
    }) + delta_body(encoded_moves(all_moves, index, all))
}

/// The bytes of a record in the given scheme.
pub open spec fn record_bytes(all_moves: Seq<Move>, index: nat, scheme: RecordEncodingScheme) -> Seq<
    u8,
> {
    if scheme.delta {
        pack_nibbles(delta_record_nibbles(all_moves, index, scheme.all))
    } else {
        plain_record_bytes(all_moves, index, scheme.all)
    }
}

/// Reads delta encoded moves until only padding is left, making each after
/// the moves `hist` and those read before it, from origin `o`; a first
/// two-stone move gets a stone at the origin of the board before it.
pub open spec fn delta_replay(nibs: Seq<u8>, hist: Seq<Move>, o: Point) -> Option<Seq<Move>>
    decreases nibs.len(),
{
    if !has_rem(nibs) {
        Some(hist)
    } else {
        let first = hist.len() == 0;
        match delta_parse(nibs, o, first) {
            None => None,
            Some((m, o2, k)) => {
                let lead = first && m matches Move::Place(_, Some(_));
                let origin_stone = Move::Place(origin_point(), None);
                let pre = if lead {
                    hist.push(origin_stone)
                } else {
                    hist
                };
                if k == 0 || k > nibs.len() || (lead && !legal(hist, origin_stone)) || !legal(
                    pre,
                    m,
                ) {
                    None
                } else {
                    delta_replay(nibs.skip(k as int), pre.push(m), o2)
                }
            },
        }
    }
}

/// Reads the delta record format after its scheme nibble: the index if
/// all moves are encoded, then the moves.
pub open spec fn delta_decode(nibs: Seq<u8>, all: bool) -> Option<(Seq<Move>, nat)> {
    if all {
        match nib_varint_parse(nibs, 11) {
            None => None,
            Some((idx, k)) => match delta_replay(nibs.skip(k as int), Seq::<Move>::empty(), origin_point()) {
                None => None,
                Some(ms) => if idx <= ms.len() {
                    Some((ms, idx))
                } else {
                    None
                },
            },
        }
    } else {
        match delta_replay(nibs, Seq::<Move>::empty(), origin_point()) {
            None => None,
            Some(ms) => Some((ms, ms.len())),
        }
    }
}

/// Reads a delta encoded record from its bytes: all nibbles but the scheme.
pub open spec fn delta_record_decode(s: Seq<u8>, all: bool) -> Option<(Seq<Move>, nat)> {
    delta_decode(unpack(s).skip(1), all)
}

/// A legal move from an origin within bounds can be delta encoded, and the
/// origin after it lies within bounds too.
pub proof fn lemma_legal_delta_ok(hist: Seq<Move>, m: Move, o: Point)
    requires
        legal_seq(hist),
        legal(hist, m),
        in_bounds(o),
    ensures
        delta_ok(m, o),
        delta_fits(m, o),
        in_bounds(origin_after(m, o)),
{
    match m {
        Move::Win(p, d) => {
            let b = placed(hist);
            lemma_placed_in_bounds(hist);
            lemma_run_full(b, p, d, b[p], 5);
            let q = step(p, d, 5).unwrap();
            assert(b.contains_key(q));
            assert(in_bounds(p) && in_bounds(q));
            assert(-1 <= d.dx() <= 1 && -1 <= d.dy() <= 1);
        },
        _ => {},
    }
}

impl Record {
    /// Encodes the record to a buffer.
    pub fn encode(&self, buf: &mut Vec<u8>, scheme: RecordEncodingScheme)
        requires
            self.wf(),
        ensures
            final(buf)@ == old(buf)@ + record_bytes(self.all_moves(), self.at(), scheme),
    {
        if scheme.delta {
            self.encode_delta(buf, scheme.all);
        } else {
            self.encode_plain(buf, scheme.all);
        }
    }

    /// Encodes the record to a new buffer.
    pub fn encode_to_vec(&self, scheme: RecordEncodingScheme) -> (r: Vec<u8>)
        requires
            self.wf(),
        ensures
            r@ == record_bytes(self.all_moves(), self.at(), scheme),
    {
        let mut buf = Vec::new();
        self.encode(&mut buf, scheme);
        assert(buf@ =~= record_bytes(self.all_moves(), self.at(), scheme));
        buf
    }

    /// Decodes a record from a buffer: the whole buffer is read on success.
    pub fn decode(buf: &mut &[u8]) -> (r: Option<Self>)
        ensures
            match record_decode(old(buf)@) {
                Some((ms, idx)) => r matches Some(rec) && rec.wf() && rec.all_moves() == ms
                    && rec.at() == idx && final(buf)@.len() == 0,
                None => r is None,
            },
            is_suffix(final(buf)@, old(buf)@),
    {
        let ghost s = buf@;
        proof {
            lemma_suffix_refl(s);
        }
        if buf.len() == 0 {
            return None;
        }
        let mut reader = NibbleReader::new(&mut *buf);
        let n = match reader.read_u3() {
            Some(n) => n,
            None => return None,
        };
        assert(unpack(s)[0] == s[0] % 16);
        let scheme = match RecordEncodingScheme::from_u8(n) {
            Some(sc) => sc,
            None => return None,
        };
        if scheme.delta {
            assert(unpack(s).drop_first() =~= unpack(s).skip(1));
            let r = Self::decode_delta(&mut reader, scheme.all);
            let ghost h = match reader.pending {
                Some(p) => seq![p],
                None => Seq::<u8>::empty(),
            };
            proof {
                lemma_suffix_trans(reader.rest(), unpack(s).skip(1), unpack(s));
                assert(Seq::<u8>::empty() + unpack(s) =~= unpack(s));
                lemma_unpack_suffix(Seq::<u8>::empty(), s, h, reader.bytes());
            }
            r
        } else {
            assert(buf@ =~= s.skip(1));
            let r = Self::decode_plain(buf, scheme.all);
            proof {
                lemma_suffix_trans(buf@, s.skip(1), s);
            }
            r
        }
    }

    /// Writes the delta record format.
    fn encode_delta(&self, buf: &mut Vec<u8>, all: bool)
        requires
            self.wf(),
        ensures
            final(buf)@ == old(buf)@ + pack_nibbles(
                delta_record_nibbles(self.all_moves(), self.at(), all),
            ),
    {
        let ghost ms = encoded_moves(self.all_moves(), self.at(), all);
        let ghost out = *final(buf);
        let mut writer = NibbleWriter::new(buf);
        writer.write_u3(
            if all {
                3
            } else {
                2
            },
        );
        let moves = self.moves();
        let end = if all {
            writer.write_u32_varint(self.move_index() as u32);
            moves.len()
        } else {
            self.move_index()
        };
        assert(ms =~= moves@.take(end as int));
        proof {
            lemma_legal_seq_take(self.all_moves(), end as int);
        }
        let ghost target = writer.nibbles@ + delta_body(ms);
        let origin_first = end >= 1 && match moves[0] {
            Move::Place(p, None) => p.x == 0 && p.y == 0,
            _ => false,
        };
        if end == 1 && origin_first {
            writer.write_u3(0);
            assert(writer.nibbles@ =~= target);
            writer.finish();
            return ;
        }
        let mut i: usize = 0;
        if end >= 2 && origin_first {
            if let Move::Place(_, Some(_)) = moves[1] {
                i = 1;
            }
        }
        assert(delta_body(ms) == delta_moves_nibbles(ms.skip(i as int), origin_point())) by {
            assert(ms.skip(0) =~= ms);
            assert(ms.skip(1) =~= ms.drop_first());
        }
        let mut origin = Point::zero();
        while i < end
            invariant
                writer.wf(),
                *final(writer.buf) == out,
                i <= end,
                end == ms.len(),
                legal_seq(ms),
                end <= moves@.len(),
                ms == moves@.take(end as int),
                in_bounds(origin),
                writer.nibbles@ + delta_moves_nibbles(ms.skip(i as int), origin) == target,
                writer.start@ == old(buf)@,
            decreases end - i,
        {
            proof {
                assert(legal(ms.take(i as int), ms[i as int]));
                lemma_legal_seq_take(ms, i as int);
                lemma_legal_delta_ok(ms.take(i as int), ms[i as int], origin);
                assert(ms.skip(i as int).drop_first() =~= ms.skip(i + 1));
            }
            let ghost o = origin;
            let ghost before = writer.nibbles@;
            moves[i].encode_delta(&mut writer, &mut origin);
            assert(writer.nibbles@ + delta_moves_nibbles(ms.skip(i + 1), origin) =~= before
                + delta_moves_nibbles(ms.skip(i as int), o));
            i += 1;
        }
        assert(ms.skip(end as int) =~= Seq::<Move>::empty());
        assert(writer.nibbles@ =~= target);
        writer.finish();
    }

    fn encode_plain(&self, buf: &mut Vec<u8>, all: bool)
        requires
            self.wf(),
        ensures
            final(buf)@ == old(buf)@ + plain_record_bytes(self.all_moves(), self.at(), all),
    {
        let ghost start = buf@;
        let ghost ms = encoded_moves(self.all_moves(), self.at(), all);
        put_u8(
            buf,
            if all {
                1
            } else {
                0
            },
        );
        let moves = self.moves();
        let end = if all {
            put_u32_varint(buf, self.move_index() as u32);
            moves.len()
        } else {
            self.move_index()
        };
        let ghost head = buf@;
        assert(ms.len() == end);
        let mut i: usize = 0;
        while i < end
            invariant
                i <= end,
                end == ms.len(),
                moves@ == self.all_moves(),
                ms =~= moves@.take(end as int),
                legal_seq(self.all_moves()),
                end <= self.all_moves().len(),
                buf@ == head + moves_bytes(ms.take(i as int)),
            decreases end - i,
        {
            proof {
                assert(legal(self.all_moves().take(i as int), self.all_moves()[i as int]));
                lemma_legal_encodable(self.all_moves().take(i as int), moves@[i as int]);
                lemma_moves_bytes_push(ms, i as int, 0);
                assert(ms.take(i as int + 1) =~= ms.take(i as int + 1));
            }
            moves[i].encode(buf, i == 0);
            i += 1;
            proof {
                assert(ms[i - 1] == moves@[i - 1]);
            }
        }
        assert(ms.take(end as int) =~= ms);
        assert(buf@ =~= start + plain_record_bytes(self.all_moves(), self.at(), all));
    }

    /// Reads one delta encoded move and makes it, after a stone at the
    /// origin of the board where it is a first two-stone move.
    fn decode_delta_step(reader: &mut NibbleReader<'_, '_>, record: &mut Record, origin: &mut Point) -> (ok:
        bool)
        requires
            old(reader).wf(),
            old(record).wf(),
            old(record).at() == old(record).all_moves().len(),
            has_rem(old(reader).rest()),
        ensures
            final(reader).wf(),
            *final(final(reader).buf) == *final(old(reader).buf),
            is_suffix(final(reader).rest(), old(reader).rest()),
            final(record).wf(),
            final(record).at() == final(record).all_moves().len(),
            ok ==> final(reader).rest().len() < old(reader).rest().len() && delta_replay(
                final(reader).rest(),
                final(record).all_moves(),
                *final(origin),
            ) == delta_replay(old(reader).rest(), old(record).all_moves(), *old(origin)),
            !ok ==> delta_replay(old(reader).rest(), old(record).all_moves(), *old(origin)) is None,
    {
        let ghost before = reader.rest();
        let ghost hist = record.all_moves();
        let ghost o = *origin;
        assert(record.past() =~= hist);
        let first = !record.has_past();
        proof {
            lemma_delta_parse_consumes(before, o, first);
        }
        let mov = match Move::decode_delta(reader, origin, first) {
            Some(m) => m,
            None => return false,
        };
        let ghost lead = first && mov matches Move::Place(_, Some(_));
        let ghost pre = if lead {
            hist.push(Move::Place(origin_point(), None))
        } else {
            hist
        };
        if first {
            if let Move::Place(_, Some(_)) = mov {
                if !record.make_move(Move::Place(Point::zero(), None)) {
                    return false;
                }
                assert(record.past() =~= record.all_moves());
            }
        }
        assert(record.all_moves() == pre);
        if !record.make_move(mov) {
            return false;
        }
        true
    }

    /// Reads the delta record format after its scheme nibble: moves until
    /// only padding is left, then jumps to the index if one is given.
    fn decode_delta(reader: &mut NibbleReader<'_, '_>, all: bool) -> (r: Option<Self>)
        requires
            old(reader).wf(),
        ensures
            final(reader).wf(),
            *final(final(reader).buf) == *final(old(reader).buf),
            is_suffix(final(reader).rest(), old(reader).rest()),
            match delta_decode(old(reader).rest(), all) {
                Some((ms, idx)) => r matches Some(rec) && rec.wf() && rec.all_moves() == ms
                    && rec.at() == idx && final(reader).bytes().len() == 0,
                None => r is None,
            },
    {
        let ghost nibs = reader.rest();
        let ghost out = *final(reader.buf);
        proof {
            lemma_suffix_refl(nibs);
            lemma_nib_varint_parse_consumes(nibs, 11);
        }
        let mut index: Option<u32> = None;
        if all {
            match reader.read_u32_varint() {
                Some(i) => {
                    index = Some(i);
                },
                None => return None,
            }
        }
        let ghost body = reader.rest();
        assert(all ==> body =~= nibs.skip(nib_varint_parse(nibs, 11).unwrap().1 as int));
        assert(!all ==> body == nibs);
        let mut record = Record::new();
        let mut origin = Point::zero();
        while reader.has_remaining()
            invariant
                reader.wf(),
                *final(reader.buf) == out,
                out == *final(old(reader).buf),
                is_suffix(reader.rest(), nibs),
                nibs == old(reader).rest(),
                record.wf(),
                record.at() == record.all_moves().len(),
                delta_replay(reader.rest(), record.all_moves(), origin) == delta_replay(
                    body,
                    Seq::<Move>::empty(),
                    origin_point(),
                ),
                all ==> (nib_varint_parse(nibs, 11) matches Some((idx, k)) && body == nibs.skip(
                    k as int,
                ) && index == Some(idx as u32)),
                !all ==> body == nibs && index is None,
            decreases reader.rest().len(),
        {
            let ghost before = reader.rest();
            if !Self::decode_delta_step(reader, &mut record, &mut origin) {
                proof {
                    lemma_suffix_trans(reader.rest(), before, nibs);
                }
                return None;
            }
            proof {
                lemma_suffix_trans(reader.rest(), before, nibs);
            }
        }
        assert(delta_replay(reader.rest(), record.all_moves(), origin) == Some(record.all_moves()));
        match index {
            Some(i) => {
                if !record.jump(i as usize) {
                    return None;
                }
            },
            None => {},
        }
        Some(record)
    }

    /// Reads moves in the plain format until the buffer runs out, then
    /// jumps to `index` if one is given.
    fn decode_plain(buf: &mut &[u8], all: bool) -> (r: Option<Self>)
        ensures
            match plain_decode(old(buf)@, all) {
                Some((ms, idx)) => r matches Some(rec) && rec.wf() && rec.all_moves() == ms
                    && rec.at() == idx && final(buf)@.len() == 0,
                None => r is None,
            },
            is_suffix(final(buf)@, old(buf)@),
    {
        let ghost s = buf@;
        proof {
            lemma_varint_parse_u32_bound(s);
        }
        let mut index: Option<u32> = None;
        if all {
            match try_get_u32_varint(buf) {
                Some(i) => {
                    index = Some(i);
                },
                None => return None,
            }
        }
        let ghost body = buf@;
        assert(all ==> body =~= s.skip(varint_parse_u32(s).unwrap().1 as int));
        assert(!all ==> body == s);
        assert(is_suffix(body, s)) by {
            assert(body =~= s.skip(s.len() - body.len()));
        }
        let mut record = Record::new();
        while buf.len() > 0
            invariant
                record.wf(),
                record.at() == record.all_moves().len(),
                replay(buf@, record.all_moves()) == replay(body, Seq::<Move>::empty()),
                is_suffix(buf@, s),
                s == old(buf)@,
                all ==> (varint_parse_u32(s) matches Some((idx, k)) && body == s.skip(k as int)
                    && index == Some(idx as u32)),
                !all ==> body == s && index is None,
            decreases buf@.len(),
        {
            let ghost before = buf@;
            let ghost hist = record.all_moves();
            assert(record.past() =~= hist);
            proof {
                lemma_move_parse_consumes(before, hist.len() == 0);
            }
            let first = !record.has_past();
            let decoded = Move::decode(buf, first);
            proof {
                lemma_suffix_trans(buf@, before, s);
            }
            if decoded.is_none() {
                return None;
            }
            let mov = decoded.unwrap();
            if !record.make_move(mov) {
                return None;
            }
            assert(buf@ =~= before.skip((before.len() - buf@.len()) as int));
        }
        assert(replay(buf@, record.all_moves()) == Some(record.all_moves()));
        match index {
            Some(i) => {
                if !record.jump(i as usize) {
                    return None;
                }
            },
            None => {},
        }
        Some(record)
    }
}

} // verus!
