//! Nibble streams: four-bit units packed two to a byte, low half first,
//! and three-bit varints written with them.
use crate::codec::{is_suffix, lemma_suffix_refl};
use vstd::prelude::*;

verus! {

/// Whether every element is a nibble.
pub open spec fn all_nibbles(s: Seq<u8>) -> bool {
    forall|i: int| 0 <= i < s.len() ==> #[trigger] s[i] < 16
}

/// Packs nibbles two to a byte, low half first; a lone last nibble is left out.
pub open spec fn pack_pairs(nibs: Seq<u8>) -> Seq<u8> {
    Seq::new(nibs.len() / 2, |i: int| (nibs[2 * i] + 16 * nibs[2 * i + 1]) as u8)
}

/// The bytes of a finished nibble stream: a lone last nibble gets `0xF` above it.
pub open spec fn pack_nibbles(nibs: Seq<u8>) -> Seq<u8> {
    if nibs.len() % 2 == 0 {
        pack_pairs(nibs)
    } else {
        pack_pairs(nibs).push((nibs.last() + 0xF0) as u8)
    }
}

/// Splits bytes into nibbles, low half first.
pub open spec fn unpack(bytes: Seq<u8>) -> Seq<u8> {
    Seq::new(
        2 * bytes.len(),
        |i: int|
            if i % 2 == 0 {
                bytes[i / 2] % 16
            } else {
                bytes[i / 2] / 16
            },
    )
}

/// Whether the nibbles hold anything but a final `0xF` padding nibble.
pub open spec fn has_rem(r: Seq<u8>) -> bool {
    r.len() >= 2 || (r.len() == 1 && r[0] != 15)
}

/// The nibbles of a three-bit varint: three bits per nibble, least
/// significant group first, the high bit set on every nibble but the last.
pub open spec fn varint_nibbles(n: nat) -> Seq<u8>
    decreases n,
{
    if n < 8 {
        seq![n as u8]
    } else {
        seq![((n % 8) + 8) as u8] + varint_nibbles(n / 8)
    }
}

/// Reads a three-bit varint into a `u32` from a nibble stream, with `room`
/// nibbles left before the value overflows (11 for a `u32`): the last one
/// that fits may carry only two bits and no continuation.
/// Gives the value and the number of nibbles consumed.
pub open spec fn nib_varint_parse(s: Seq<u8>, room: nat) -> Option<(nat, nat)>
    decreases s.len(),
{
    if s.len() == 0 || room == 0 {
        None
    } else if room == 1 && s[0] % 8 >= 4 {
        None
    } else if s[0] < 8 {
        Some((s[0] as nat, 1))
    } else if room == 1 {
        None
    } else {
        match nib_varint_parse(s.drop_first(), (room - 1) as nat) {
            Some((v, k)) => Some((((s[0] - 8) + 8 * v) as nat, k + 1)),
            None => None,
        }
    }
}

/// The values a three-bit varint of `room` nibbles can hold: `4 * 8^(room - 1)`.
pub open spec fn nib_varint_cap(room: nat) -> nat
    decreases room,
{
    if room <= 1 {
        4
    } else {
        8 * nib_varint_cap((room - 1) as nat)
    }
}

/// A three-bit varint is nibbles, the last of them below 8.
pub proof fn lemma_varint_nibbles_shape(n: nat)
    ensures
        varint_nibbles(n).len() >= 1,
        all_nibbles(varint_nibbles(n)),
        varint_nibbles(n).last() < 8,
    decreases n,
{
    if n >= 8 {
        lemma_varint_nibbles_shape(n / 8);
        let t = varint_nibbles(n / 8);
        assert(varint_nibbles(n) =~= seq![((n % 8) + 8) as u8] + t);
    }
}

/// Reading back a three-bit varint gives the value written and consumes
/// exactly its nibbles, whatever follows them.
pub proof fn lemma_nib_varint_roundtrip(n: nat, room: nat, rest: Seq<u8>)
    requires
        room >= 1,
        n < nib_varint_cap(room),
    ensures
        nib_varint_parse(varint_nibbles(n) + rest, room) == Some((n, varint_nibbles(n).len())),
    decreases n,
{
    let s = varint_nibbles(n) + rest;
    if n < 8 {
        if room == 1 {
            assert(n < 4);
        }
        assert(s[0] == n as u8);
    } else {
        assert(room >= 2) by {
            if room <= 1 {
                assert(nib_varint_cap(room) == 4);
            }
        }
        assert(nib_varint_cap(room) == 8 * nib_varint_cap((room - 1) as nat));
        lemma_nib_varint_roundtrip(n / 8, (room - 1) as nat, rest);
        assert(s.drop_first() =~= varint_nibbles(n / 8) + rest);
        assert(s[0] == ((n % 8) + 8) as u8);
    }
}

/// Every `u32` reads back from its three-bit varint.
pub proof fn lemma_nib_varint_roundtrip_u32(n: u32, rest: Seq<u8>)
    ensures
        nib_varint_parse(varint_nibbles(n as nat) + rest, 11) == Some(
            (n as nat, varint_nibbles(n as nat).len()),
        ),
{
    assert(nib_varint_cap(11) == 0x1_0000_0000) by {
        reveal_with_fuel(nib_varint_cap, 11);
    }
    lemma_nib_varint_roundtrip(n as nat, 11, rest);
}

/// The three-bit varints of `vs`, one after the other.
pub open spec fn varints_nibbles(vs: Seq<u32>) -> Seq<u8>
    decreases vs.len(),
{
    if vs.len() == 0 {
        Seq::empty()
    } else {
        varint_nibbles(vs[0] as nat) + varints_nibbles(vs.drop_first())
    }
}

/// Whether a reader left with the nibbles `r` reads the values `vs` one
/// after the other: something but padding remains before each, each read
/// gives the value, and after the last nothing but padding remains and a
/// further read fails.
pub open spec fn reads_varints(r: Seq<u8>, vs: Seq<u32>) -> bool
    decreases vs.len(),
{
    if vs.len() == 0 {
        !has_rem(r) && nib_varint_parse(r, 11) is None
    } else {
        has_rem(r) && match nib_varint_parse(r, 11) {
            Some((v, k)) => v == vs[0] && k <= r.len() && reads_varints(r.skip(k as int), vs.drop_first()),
            None => false,
        }
    }
}

/// The three-bit varints of values are nibbles.
proof fn lemma_varints_nibbles_shape(vs: Seq<u32>)
    ensures
        all_nibbles(varints_nibbles(vs)),
    decreases vs.len(),
{
    if vs.len() > 0 {
        lemma_varint_nibbles_shape(vs[0] as nat);
        lemma_varints_nibbles_shape(vs.drop_first());
        let a = varint_nibbles(vs[0] as nat);
        let b = varints_nibbles(vs.drop_first());
        assert forall|i: int| 0 <= i < (a + b).len() implies #[trigger] (a + b)[i] < 16 by {
            if i >= a.len() {
                assert((a + b)[i] == b[i - a.len()]);
            }
        }
    }
}

/// The varints of `vs`, then a padding nibble or none, read back as `vs`.
proof fn lemma_reads_varints(vs: Seq<u32>, tail: Seq<u8>)
    requires
        tail == Seq::<u8>::empty() || tail == seq![15u8],
    ensures
        reads_varints(varints_nibbles(vs) + tail, vs),
    decreases vs.len(),
{
    let r = varints_nibbles(vs) + tail;
    if vs.len() == 0 {
        assert(r =~= tail);
        if tail.len() == 1 {
            assert(tail.drop_first() =~= Seq::<u8>::empty());
            assert(nib_varint_parse(tail.drop_first(), 10) is None);
        }
        assert(!has_rem(r));
        assert(nib_varint_parse(r, 11) is None);
    } else {
        let a = varint_nibbles(vs[0] as nat);
        let rest = varints_nibbles(vs.drop_first()) + tail;
        assert(r =~= a + rest);
        lemma_varint_nibbles_shape(vs[0] as nat);
        lemma_nib_varint_roundtrip_u32(vs[0], rest);
        assert(r.skip(a.len() as int) =~= rest);
        lemma_reads_varints(vs.drop_first(), tail);
        if r.len() == 1 {
            assert(r[0] == a.last());
        }
        assert(has_rem(r));
        assert(nib_varint_parse(r, 11) == Some((vs[0] as nat, a.len())));
        assert(reads_varints(r.skip(a.len() as int), vs.drop_first()));
    }
}

/// The bytes of a nibble stream of three-bit varints read back as the
/// values written, one after the other, with nothing but padding left
/// after the last.
pub proof fn lemma_nib_varint_stream(vs: Seq<u32>)
    ensures
        reads_varints(unpack(pack_nibbles(varints_nibbles(vs))), vs),
{
    let nibs = varints_nibbles(vs);
    lemma_varints_nibbles_shape(vs);
    lemma_unpack_pack(nibs);
    if nibs.len() % 2 == 0 {
        assert(nibs =~= nibs + Seq::<u8>::empty());
        lemma_reads_varints(vs, Seq::<u8>::empty());
    } else {
        assert(nibs.push(15) =~= nibs + seq![15u8]);
        lemma_reads_varints(vs, seq![15u8]);
    }
}

/// A nibble stream read back from its bytes: the nibbles written,
/// followed by one `0xF` where their number is odd.
pub proof fn lemma_unpack_pack(nibs: Seq<u8>)
    requires
        all_nibbles(nibs),
    ensures
        unpack(pack_nibbles(nibs)) == (if nibs.len() % 2 == 0 {
            nibs
        } else {
            nibs.push(15)
        }),
{
    let t = if nibs.len() % 2 == 0 {
        nibs
    } else {
        nibs.push(15)
    };
    let u = unpack(pack_nibbles(nibs));
    assert(u.len() == t.len());
    assert forall|i: int| 0 <= i < t.len() implies u[i] == t[i] by {
        let j = i / 2;
        if 2 * j + 1 < nibs.len() {
            let lo = nibs[2 * j];
            let hi = nibs[2 * j + 1];
            assert(lo < 16 && hi < 16);
            assert(pack_nibbles(nibs)[j] == (lo + 16 * hi) as u8);
            assert((lo + 16 * hi) % 16 == lo && (lo + 16 * hi) / 16 == hi);
        } else {
            let lo = nibs[2 * j];
            assert(lo < 16);
            assert(pack_nibbles(nibs)[j] == (lo + 0xF0) as u8);
            assert((lo + 0xF0) % 16 == lo && (lo + 0xF0) / 16 == 15);
        }
    }
    assert(u =~= t);
}

/// A three-bit varint read consumes at least one nibble and no more than
/// there are.
pub proof fn lemma_nib_varint_parse_consumes(s: Seq<u8>, room: nat)
    ensures
        nib_varint_parse(s, room) matches Some((v, k)) ==> 1 <= k <= s.len(),
    decreases s.len(),
{
    if s.len() > 0 && room > 1 && s[0] >= 8 {
        lemma_nib_varint_parse_consumes(s.drop_first(), (room - 1) as nat);
    }
}

/// Where what is left of a nibble stream (a waiting nibble `h` before the
/// bytes) shrinks to a suffix, so do its bytes.
#[verifier::spinoff_prover]
#[verifier::rlimit(40)]
pub proof fn lemma_unpack_suffix(h1: Seq<u8>, b1: Seq<u8>, h2: Seq<u8>, b2: Seq<u8>)
    requires
        h1.len() <= 1,
        h2.len() <= 1,
        is_suffix(h2 + unpack(b2), h1 + unpack(b1)),
    ensures
        is_suffix(b2, b1),
{
    let r1 = h1 + unpack(b1);
    let r2 = h2 + unpack(b2);
    let t = b1.len() - b2.len();
    assert(b2.len() <= b1.len());
    assert forall|i: int| 0 <= i < b2.len() implies b2[i] == b1[t + i] by {
        assert(r2[h2.len() + 2 * i] == r1[r1.len() - r2.len() + h2.len() + 2 * i]);
        assert(r2[h2.len() + 2 * i + 1] == r1[r1.len() - r2.len() + h2.len() + 2 * i + 1]);
        assert(unpack(b2)[2 * i] == b2[i] % 16);
        assert(unpack(b2)[2 * i + 1] == b2[i] / 16);
        assert(unpack(b1)[2 * (t + i)] == b1[t + i] % 16);
        assert(unpack(b1)[2 * (t + i) + 1] == b1[t + i] / 16);
    }
    assert(b2 =~= b1.skip(t));
}

/// A writer of nibbles into a byte buffer; `finish` writes the last,
/// half-filled byte.
pub struct NibbleWriter<'a> {
    /// The buffer written to.
    pub buf: &'a mut Vec<u8>,
    /// A nibble waiting for its partner.
    pub pending: Option<u8>,
    /// What the buffer held before the writer was made.
    pub start: Ghost<Seq<u8>>,
    /// The nibbles written so far.
    pub nibbles: Ghost<Seq<u8>>,
}

impl<'a> NibbleWriter<'a> {
    /// The buffer holds what it held before followed by the complete pairs
    /// of the nibbles written, and the lone last nibble waits.
    pub open spec fn wf(&self) -> bool {
        &&& all_nibbles(self.nibbles@)
        &&& (*self.buf)@ == self.start@ + pack_pairs(self.nibbles@)
        &&& self.pending == if self.nibbles@.len() % 2 == 1 {
            Some(self.nibbles@.last())
        } else {
            None
        }
    }

    /// Creates a writer appending to `buf`.
    pub fn new(buf: &'a mut Vec<u8>) -> (r: Self)
        ensures
            r.wf(),
            r.start@ == old(buf)@,
            r.nibbles@ == Seq::<u8>::empty(),
            *final(r.buf) == *final(buf),
    {
        let ghost start = buf@;
        let r = NibbleWriter { buf, pending: None, start: Ghost(start), nibbles: Ghost(Seq::empty()) };
        assert((*r.buf)@ =~= r.start@ + pack_pairs(r.nibbles@));
        r
    }

    fn write_u4(&mut self, n: u8)
        requires
            old(self).wf(),
            n < 16,
        ensures
            final(self).wf(),
            final(self).start == old(self).start,
            final(self).nibbles@ == old(self).nibbles@.push(n),
            *final(final(self).buf) == *final(old(self).buf),
    {
        let ghost old_nibs = self.nibbles@;
        let ghost new_nibs = old_nibs.push(n);
        match self.pending {
            Some(p) => {
                assert(p | (n << 4u8) == p + 16 * n) by (bit_vector)
                    requires
                        p < 16,
                        n < 16,
                ;
                self.buf.push(p | (n << 4));
                self.pending = None;
                assert(pack_pairs(new_nibs) =~= pack_pairs(old_nibs).push((p + 16 * n) as u8));
            },
            None => {
                self.pending = Some(n);
                assert(pack_pairs(new_nibs) =~= pack_pairs(old_nibs));
            },
        }
        self.nibbles = Ghost(new_nibs);
    }

    /// Writes a three-bit number.
    pub fn write_u3(&mut self, n: u8)
        requires
            old(self).wf(),
            n < 8,
        ensures
            final(self).wf(),
            final(self).start == old(self).start,
            final(self).nibbles@ == old(self).nibbles@.push(n),
            *final(final(self).buf) == *final(old(self).buf),
    {
        self.write_u4(n);
    }

    /// Writes a `u32` as a three-bit varint.
    pub fn write_u32_varint(&mut self, n: u32)
        requires
            old(self).wf(),
        ensures
            final(self).wf(),
            final(self).start == old(self).start,
            final(self).nibbles@ == old(self).nibbles@ + varint_nibbles(n as nat),
            *final(final(self).buf) == *final(old(self).buf),
    {
        let ghost old_nibs = self.nibbles@;
        let mut n = n;
        let ghost orig = n;
        while n >= 8
            invariant
                self.wf(),
                self.start == old(self).start,
                self.nibbles@ + varint_nibbles(n as nat) == old_nibs + varint_nibbles(orig as nat),
                *final(self.buf) == *final(old(self).buf),
            decreases n,
        {
            let ghost before = self.nibbles@;
            let c = (n as u8 & 7) | 8;
            assert(c == (n % 8) + 8) by (bit_vector)
                requires
                    c == (n as u8 & 7) | 8,
            ;
            self.write_u4(c);
            assert(varint_nibbles(n as nat) == seq![c] + varint_nibbles((n / 8) as nat));
            assert(n >> 3u32 == n / 8) by (bit_vector);
            n >>= 3;
            assert(self.nibbles@ + varint_nibbles(n as nat) =~= before + (seq![c]
                + varint_nibbles(n as nat)));
        }
        self.write_u4(n as u8);
        assert(varint_nibbles(n as nat) == seq![n as u8]);
        assert(self.nibbles@ =~= old_nibs + varint_nibbles(orig as nat));
    }

    /// Writes the last, half-filled byte (with `0xF` above its nibble) and
    /// gives the buffer back.
    pub fn finish(self)
        requires
            self.wf(),
        ensures
            (*final(self.buf))@ == self.start@ + pack_nibbles(self.nibbles@),
    {
        let ghost nibs = self.nibbles@;
        let buf = self.buf;
        match self.pending {
            Some(p) => {
                assert(p | 0xF0u8 == p + 0xF0) by (bit_vector)
                    requires
                        p < 16,
                ;
                buf.push(p | 0xF0);
                assert(pack_pairs(nibs).push((nibs.last() + 0xF0) as u8) =~= pack_nibbles(nibs));
            },
            None => {},
        }
    }
}

/// A reader of nibbles from a byte slice, which it advances byte by byte.
pub struct NibbleReader<'a, 'b> {
    /// The bytes not yet taken.
    pub buf: &'b mut &'a [u8],
    /// The high nibble of the last byte taken, not yet read.
    pub pending: Option<u8>,
}

impl<'a, 'b> NibbleReader<'a, 'b> {
    /// The nibbles not yet read.
    pub open spec fn rest(&self) -> Seq<u8> {
        let head = match self.pending {
            Some(p) => seq![p],
            None => Seq::<u8>::empty(),
        };
        head + unpack((*self.buf)@)
    }

    /// A waiting nibble is a nibble.
    pub open spec fn wf(&self) -> bool {
        self.pending matches Some(p) ==> p < 16
    }

    /// The bytes not yet taken.
    pub open spec fn bytes(&self) -> Seq<u8> {
        (*self.buf)@
    }

    /// Creates a reader taking bytes from `buf`.
    pub fn new(buf: &'b mut &'a [u8]) -> (r: Self)
        ensures
            r.wf(),
            r.pending is None,
            *r.buf == *old(buf),
            r.rest() == unpack(old(buf)@),
            *final(r.buf) == *final(buf),
    {
        let r = NibbleReader { buf, pending: None };
        assert(r.rest() =~= unpack((*r.buf)@));
        r
    }

    /// Tests whether anything but a final `0xF` padding nibble is left.
    pub fn has_remaining(&self) -> (r: bool)
        ensures
            r == (self.bytes().len() > 0 || (self.pending matches Some(p) && p != 15)),
            r == has_rem(self.rest()),
    {
        if self.buf.len() != 0 {
            return true;
        }
        match self.pending {
            Some(p) => p != 15,
            None => false,
        }
    }

    fn read_u4(&mut self) -> (r: Option<u8>)
        requires
            old(self).wf(),
        ensures
            final(self).wf(),
            *final(final(self).buf) == *final(old(self).buf),
            match old(self).pending {
                Some(p) => r == Some(p) && final(self).pending is None
                    && *final(self).buf == *old(self).buf,
                None => if (*old(self).buf)@.len() == 0 {
                    r is None && final(self).pending is None && *final(self).buf == *old(self).buf
                } else {
                    r == Some((*old(self).buf)@[0] % 16) && final(self).pending == Some(
                        ((*old(self).buf)@[0] / 16) as u8,
                    ) && (*final(self).buf)@ == (*old(self).buf)@.drop_first()
                },
            },
            old(self).rest().len() == 0 ==> r is None && final(self).rest() == old(self).rest(),
            old(self).rest().len() > 0 ==> r == Some(old(self).rest()[0]) && final(self).rest()
                == old(self).rest().drop_first(),
    {
        match self.pending {
            Some(p) => {
                self.pending = None;
                assert(old(self).rest().drop_first() =~= self.rest());
                Some(p)
            },
            None => {
                if self.buf.len() == 0 {
                    return None;
                }
                let n = self.buf[0];
                let len = self.buf.len();
                *self.buf = &self.buf[1..len];
                assert(n >> 4u8 == n / 16 && n & 15 == n % 16) by (bit_vector);
                self.pending = Some(n >> 4);
                assert(old(self).rest().drop_first() =~= self.rest());
                Some(n & 15)
            },
        }
    }

    /// Reads a nibble, giving it only where it is below 8 (it is consumed
    /// either way).
    pub fn read_u3(&mut self) -> (r: Option<u8>)
        requires
            old(self).wf(),
        ensures
            final(self).wf(),
            *final(final(self).buf) == *final(old(self).buf),
            match old(self).pending {
                Some(p) => final(self).pending is None && *final(self).buf == *old(self).buf,
                None => if (*old(self).buf)@.len() == 0 {
                    final(self).pending is None && *final(self).buf == *old(self).buf
                } else {
                    final(self).pending == Some(((*old(self).buf)@[0] / 16) as u8)
                        && (*final(self).buf)@ == (*old(self).buf)@.drop_first()
                },
            },
            old(self).rest().len() == 0 ==> r is None && final(self).rest() == old(self).rest(),
            old(self).rest().len() > 0 ==> final(self).rest() == old(self).rest().drop_first() && r
                == (if old(self).rest()[0] < 8 {
                Some(old(self).rest()[0])
            } else {
                None
            }),
            is_suffix(final(self).rest(), old(self).rest()),
    {
        let ghost before = self.rest();
        let r = self.read_u4();
        proof {
            if before.len() > 0 {
                assert(before.drop_first() =~= before.skip(1));
            } else {
                lemma_suffix_refl(before);
            }
        }
        match r {
            Some(n) => if n < 8 {
                Some(n)
            } else {
                None
            },
            None => None,
        }
    }

    /// Reads a three-bit varint into a `u32`.
    pub fn read_u32_varint(&mut self) -> (r: Option<u32>)
        requires
            old(self).wf(),
        ensures
            final(self).wf(),
            *final(final(self).buf) == *final(old(self).buf),
            match nib_varint_parse(old(self).rest(), 11) {
                Some((v, k)) => r == Some(v as u32) && v <= u32::MAX && 1 <= k <= old(
                    self,
                ).rest().len() && final(self).rest() == old(self).rest().skip(k as int),
                None => r is None,
            },
            is_suffix(final(self).rest(), old(self).rest()),
    {
        let ghost rest0 = self.rest();
        let mut n: u32 = 0;
        let mut shift: u32 = 0;
        let ghost mut i: int = 0;
        let ghost mut scale: int = 1;
        assert((1u64 << 0u32) == 1) by (bit_vector);
        loop
            invariant
                self.wf(),
                *final(self.buf) == *final(old(self).buf),
                0 <= i <= 10,
                shift == 3 * i,
                scale == (1u64 << shift),
                n < scale,
                i <= rest0.len(),
                self.rest() == rest0.skip(i),
                rest0 == old(self).rest(),
                match nib_varint_parse(rest0, 11) {
                    Some((v, k)) => nib_varint_parse(self.rest(), (11 - i) as nat) matches Some(
                        (v2, k2),
                    ) && v == n + scale * v2 && k == i + k2,
                    None => nib_varint_parse(self.rest(), (11 - i) as nat) is None,
                },
            decreases 11 - i,
        {
            let ghost cur = self.rest();
            assert(cur.len() > 0 ==> cur[0] < 16) by {
                if cur.len() > 0 {
                    lemma_rest_nibbles(*self);
                }
            }
            let b = match self.read_u4() {
                Some(b) => b,
                None => {
                    return None;
                },
            };
            assert(self.rest() == rest0.skip(i + 1)) by {
                assert(cur.drop_first() =~= rest0.skip(i + 1));
            }
            assert(b & 4u8 != 0 <==> b % 8 >= 4) by (bit_vector)
                requires
                    b < 16,
            ;
            if shift == 30 && b & 4 != 0 {
                return None;
            }
            let c = (b & 7) as u32;
            assert(c == b % 8 && (b & 8u8 == 0 <==> b < 8)) by (bit_vector)
                requires
                    c == (b & 7u8) as u32,
                    b < 16,
            ;
            assert((n | (c << shift)) == n + c * (1u64 << shift) && n + c * (1u64 << shift)
                < 8 * (1u64 << shift) && (shift <= 27 ==> (1u64 << (shift + 3)) == 8 * (1u64
                << shift))) by (bit_vector)
                requires
                    shift <= 30,
                    shift % 3 == 0,
                    n < (1u64 << shift),
                    c < 8,
                    shift == 30 ==> c < 4,
            ;
            let ghost old_n = n;
            n |= c << shift;
            if b & 8 == 0 {
                proof {
                    if let Some((v, k)) = nib_varint_parse(rest0, 11) {
                        assert(nib_varint_parse(cur, (11 - i) as nat) == Some((b as nat, 1nat)));
                        assert(scale * b == c * scale) by (nonlinear_arith)
                            requires
                                c == b,
                        ;
                    }
                }
                return Some(n);
            }
            proof {
                if let Some((v, k)) = nib_varint_parse(rest0, 11) {
                    let (v2, k2) = nib_varint_parse(cur, (11 - i) as nat).unwrap();
                    assert(cur.drop_first() == self.rest());
                    let (v3, k3) = nib_varint_parse(self.rest(), (10 - i) as nat).unwrap();
                    assert(v2 == (b - 8) + 8 * v3);
                    assert(scale * v2 == c * scale + (scale * 8) * v3) by (nonlinear_arith)
                        requires
                            v2 == (b - 8) + 8 * v3,
                            c == b - 8,
                    ;
                }
            }
            shift += 3;
            proof {
                i = i + 1;
                scale = scale * 8;
            }
            if shift >= 32 {
                return None;
            }
        }
    }
}

proof fn lemma_rest_nibbles(r: NibbleReader)
    requires
        r.wf(),
    ensures
        all_nibbles(r.rest()),
{
    let u = unpack((*r.buf)@);
    assert forall|j: int| 0 <= j < u.len() implies #[trigger] u[j] < 16 by {
        let b = (*r.buf)@[j / 2];
        assert(b % 16 < 16 && b / 16 < 16);
    }
}

} // verus!
