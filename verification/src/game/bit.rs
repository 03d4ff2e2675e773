//! Bit streams: values of one to eight bits packed into bytes, least
//! significant bit first, and varints made of such chunks.
//!
//! A stream is modelled by the number its bits spell (the first bit the
//! least significant) and the number of its bits.
use crate::codec::{is_suffix, lemma_suffix_refl, lemma_suffix_trans};
use vstd::arithmetic::div_mod::{
    lemma_basic_div, lemma_div_denominator, lemma_fundamental_div_mod,
    lemma_fundamental_div_mod_converse, lemma_mod_breakdown, lemma_mod_pos_bound, lemma_small_mod,
};
use vstd::arithmetic::power2::{lemma2_to64, lemma_pow2_adds, lemma_pow2_pos, lemma_pow2_strictly_increases, pow2};
use vstd::prelude::*;

verus! {

/// The number that bytes spell in little-endian order.
pub open spec fn le_value(b: Seq<u8>) -> nat
    decreases b.len(),
{
    if b.len() == 0 {
        0
    } else {
        (b[0] as nat) + 256 * le_value(b.drop_first())
    }
}

/// The `q` lowest base-256 digits of `v`, least significant first.
pub open spec fn le_digits(v: nat, q: nat) -> Seq<u8> {
    Seq::new(q, |j: int| ((v / pow2((8 * j) as nat)) % 256) as u8)
}

/// The number of one bits that fill the last byte of a stream of `len` bits.
pub open spec fn pad_bits(len: nat) -> nat {
    ((8 - len % 8) % 8) as nat
}

/// A stream of `len` bits spelling `acc`, with the one bits that fill its
/// last byte after it.
pub open spec fn padded(acc: nat, len: nat) -> nat {
    acc + pow2(len) * ((pow2(pad_bits(len)) - 1) as nat)
}

/// The number that the chunks of a varint of `n` spell as a bit stream,
/// each chunk `p + 1` bits: `p` bits of payload, least significant first,
/// and above them a bit set on every chunk but the last.
pub open spec fn varint_value(n: nat, p: nat) -> nat
    decreases n
    via varint_value_decreases
{
    if p == 0 || n < pow2(p) {
        n
    } else {
        (n % pow2(p) + pow2(p)) + pow2(p + 1) * varint_value(n / pow2(p), p)
    }
}

#[via_fn]
proof fn varint_value_decreases(n: nat, p: nat) {
    if !(p == 0 || n < pow2(p)) {
        lemma_varint_step(n, p);
    }
}

/// The number of chunks in the varint of `n` with `p` bits of payload each.
pub open spec fn varint_chunks(n: nat, p: nat) -> nat
    decreases n
    via varint_chunks_decreases
{
    if p == 0 || n < pow2(p) {
        1
    } else {
        1 + varint_chunks(n / pow2(p), p)
    }
}

#[via_fn]
proof fn varint_chunks_decreases(n: nat, p: nat) {
    if !(p == 0 || n < pow2(p)) {
        lemma_varint_step(n, p);
    }
}

/// Dividing by `2^p` makes a number of at least `2^p` smaller.
pub proof fn lemma_varint_step(n: nat, p: nat)
    requires
        p >= 1,
        n >= pow2(p),
    ensures
        0 <= n / pow2(p) < n,
        pow2(p) >= 2,
{
    lemma2_to64();
    lemma_pow2_strictly_increases(0, p);
    assert(n / pow2(p) < n) by (nonlinear_arith)
        requires
            pow2(p) >= 2,
            n >= pow2(p),
    ;
}

/// Reads a varint of `nb`-bit chunks into a `u32` from a stream of `l`
/// bits spelling `v`, its payload landing `shift` bits up: a chunk that
/// would set a bit beyond the 32nd, or a continuation past it, fails.
/// Gives the value and the number of bits consumed.
pub open spec fn bit_varint_parse(v: nat, l: nat, nb: nat, shift: nat) -> Option<(nat, nat)>
    decreases 32 - shift,
{
    if l < nb || nb < 2 || shift >= 32 {
        None
    } else {
        let p = (nb - 1) as nat;
        let c = v % pow2(nb);
        let payload = c % pow2(p);
        if shift + p > 32 && payload >= pow2((32 - shift) as nat) {
            None
        } else if c < pow2(p) {
            Some((payload * pow2(shift), nb))
        } else if shift + p >= 32 {
            None
        } else {
            match bit_varint_parse(v / pow2(nb), (l - nb) as nat, nb, shift + p) {
                Some((w, k)) => Some((payload * pow2(shift) + w, k + nb)),
                None => None,
            }
        }
    }
}

/// The chunks of a varint spell a number below `2^(chunks * (p + 1))`;
/// the first chunk of a varint of at least `2^p` carries the low payload
/// bits and the continuation bit, and the rest are the varint of the
/// remaining bits.
proof fn lemma_varint_value_shape(m: nat, p: nat)
    requires
        1 <= p <= 7,
    ensures
        varint_value(m, p) < pow2((p + 1) * varint_chunks(m, p)),
        varint_chunks(m, p) >= 1,
    decreases m,
{
    lemma2_to64();
    lemma_pow2_adds(p, 1);
    lemma_pow2_pos(p);
    if m < pow2(p) {
        assert(varint_chunks(m, p) == 1);
        assert(varint_value(m, p) == m);
        assert((p + 1) * 1 == p + 1);
    } else {
        lemma_varint_step(m, p);
        let m2 = m / pow2(p);
        lemma_varint_value_shape(m2, p);
        let k2 = varint_chunks(m2, p);
        lemma_pow2_adds(p + 1, (p + 1) * k2);
        assert((p + 1) * (1 + k2) == (p + 1) + (p + 1) * k2) by (nonlinear_arith);
        lemma_mod_pos_bound(m as int, pow2(p) as int);
        let c0 = m % pow2(p) + pow2(p);
        let v2 = varint_value(m2, p);
        assert(c0 + pow2(p + 1) * v2 < pow2(p + 1) * pow2((p + 1) * k2)) by (nonlinear_arith)
            requires
                c0 < pow2(p + 1),
                v2 < pow2((p + 1) * k2),
        ;
    }
}

/// Reading back the varint of a number that fits in the bits left above
/// `shift` gives the number at that shift and consumes exactly its chunks,
/// whatever follows them.
pub proof fn lemma_bit_varint_roundtrip(m: nat, p: nat, shift: nat, rest: nat, l: nat)
    requires
        1 <= p <= 7,
        shift < 32,
        m < pow2((32 - shift) as nat),
        l >= (p + 1) * varint_chunks(m, p),
    ensures
        bit_varint_parse(
            varint_value(m, p) + pow2((p + 1) * varint_chunks(m, p)) * rest,
            l,
            p + 1,
            shift,
        ) == Some((m * pow2(shift), (p + 1) * varint_chunks(m, p))),
    decreases m,
{
    let nb = p + 1;
    let k = varint_chunks(m, p);
    let s = varint_value(m, p) + pow2(nb * k) * rest;
    lemma2_to64();
    lemma_pow2_adds(p, 1);
    lemma_pow2_pos(p);
    lemma_pow2_pos(nb);
    lemma_varint_value_shape(m, p);
    if m < pow2(p) {
        assert(varint_chunks(m, p) == 1);
        assert(varint_value(m, p) == m);
        assert(nb * 1 == nb);
        lemma_div_mod_add_multiple(m, rest, pow2(nb));
        lemma_small_mod(m, pow2(nb));
        lemma_small_mod(m, pow2(p));
        assert(s == m + pow2(nb) * rest);
        assert(s % pow2(nb) == m);
        assert(l >= nb);
    } else {
        lemma_varint_step(m, p);
        let m2 = m / pow2(p);
        let k2 = varint_chunks(m2, p);
        let v2 = varint_value(m2, p);
        let c0 = m % pow2(p) + pow2(p);
        lemma_varint_value_shape(m2, p);
        lemma_pow2_adds(nb, nb * k2);
        assert(nb * (1 + k2) == nb + nb * k2) by (nonlinear_arith);
        assert(s == c0 + pow2(nb) * (v2 + pow2(nb * k2) * rest)) by (nonlinear_arith)
            requires
                s == c0 + pow2(nb) * v2 + pow2(nb * k) * rest,
                pow2(nb * k) == pow2(nb) * pow2(nb * k2),
        ;
        lemma_div_mod_add_multiple(c0, v2 + pow2(nb * k2) * rest, pow2(nb));
        lemma_small_mod(c0, pow2(nb));
        lemma_basic_div(c0 as int, pow2(nb) as int);
        lemma_div_mod_add_multiple(m % pow2(p), 1, pow2(p));
        lemma_small_mod(m % pow2(p), pow2(p));
        if shift + p >= 32 {
            let a = (32 - shift) as nat;
            if a < p {
                lemma_pow2_strictly_increases(a, p);
            }
            assert(false);
        }
        let a2 = (32 - shift - p) as nat;
        lemma_pow2_adds(p, a2);
        lemma_fundamental_div_mod(m as int, pow2(p) as int);
        assert(m2 < pow2(a2)) by (nonlinear_arith)
            requires
                m < pow2(p) * pow2(a2),
                m == pow2(p) * m2 + m % pow2(p),
                m % pow2(p) >= 0,
                pow2(p) > 0,
        ;
        assert((32 - (shift + p)) as nat == a2);
        lemma_bit_varint_roundtrip(m2, p, shift + p, rest, (l - nb) as nat);
        lemma_mod_pos_bound(m as int, pow2(p) as int);
        assert(s % pow2(nb) == c0);
        assert(s / pow2(nb) == v2 + pow2(nb * k2) * rest);
        assert(c0 % pow2(p) == m % pow2(p));
        assert(bit_varint_parse(s / pow2(nb), (l - nb) as nat, nb, shift + p) == Some(
            (m2 * pow2(shift + p), nb * k2),
        ));
        lemma_pow2_adds(shift, p);
        let r = m % pow2(p);
        let a = pow2(shift);
        let b = pow2(p);
        assert(r * a + m2 * (a * b) == (b * m2 + r) * a) by (nonlinear_arith);
    }
}

/// Every `u32` reads back from the varint a bit writer writes for it.
pub proof fn lemma_bit_varint_roundtrip_u32(n: u32, n_bits: u8, rest: nat, l: nat)
    requires
        2 <= n_bits <= 8,
        l >= n_bits * varint_chunks(n as nat, (n_bits - 1) as nat),
    ensures
        bit_varint_parse(
            varint_value(n as nat, (n_bits - 1) as nat) + pow2(
                (n_bits as nat) * varint_chunks(n as nat, (n_bits - 1) as nat),
            ) * rest,
            l,
            n_bits as nat,
            0,
        ) == Some((n as nat, (n_bits as nat) * varint_chunks(n as nat, (n_bits - 1) as nat))),
{
    lemma2_to64();
    let p = (n_bits - 1) as nat;
    assert(p + 1 == n_bits);
    lemma_bit_varint_roundtrip(n as nat, p, 0, rest, l);
}

/// The number that the varints of `vs`, one after the other, spell as a
/// bit stream, with `p` bits of payload per chunk.
pub open spec fn varints_value(vs: Seq<u32>, p: nat) -> nat
    decreases vs.len(),
{
    if vs.len() == 0 {
        0
    } else {
        varint_value(vs[0] as nat, p) + pow2((p + 1) * varint_chunks(vs[0] as nat, p))
            * varints_value(vs.drop_first(), p)
    }
}

/// The number of bits of the varints of `vs`, one after the other.
pub open spec fn varints_len(vs: Seq<u32>, p: nat) -> nat
    decreases vs.len(),
{
    if vs.len() == 0 {
        0
    } else {
        (p + 1) * varint_chunks(vs[0] as nat, p) + varints_len(vs.drop_first(), p)
    }
}

/// Whether a reader left with `l` bits spelling `v` reads the values `vs`
/// as varints of `nb`-bit chunks, one after the other, and is then left
/// with fewer than eight bits, all ones: nothing but padding.
pub open spec fn reads_bit_varints(v: nat, l: nat, nb: nat, vs: Seq<u32>) -> bool
    decreases vs.len(),
{
    if vs.len() == 0 {
        l < 8 && v + 1 == pow2(l)
    } else {
        match bit_varint_parse(v, l, nb, 0) {
            Some((w, k)) => w == vs[0] && k <= l && reads_bit_varints(
                v / pow2(k),
                (l - k) as nat,
                nb,
                vs.drop_first(),
            ),
            None => false,
        }
    }
}

/// The varints of `vs`, then `pad < 8` one bits, read back as `vs`.
proof fn lemma_reads_bit_varints(vs: Seq<u32>, p: nat, pad: nat)
    requires
        1 <= p <= 7,
        pad < 8,
    ensures
        reads_bit_varints(
            varints_value(vs, p) + pow2(varints_len(vs, p)) * ((pow2(pad) - 1) as nat),
            varints_len(vs, p) + pad,
            p + 1,
            vs,
        ),
    decreases vs.len(),
{
    lemma2_to64();
    lemma_pow2_pos(pad);
    let ones = (pow2(pad) - 1) as nat;
    if vs.len() == 0 {
        assert(pow2(0) == 1);
        assert(varints_value(vs, p) == 0 && varints_len(vs, p) == 0);
        assert(pow2(0) * ones == ones) by (nonlinear_arith)
            requires
                pow2(0) == 1,
        ;
        assert(varints_value(vs, p) + pow2(varints_len(vs, p)) * ones == ones);
        assert(reads_bit_varints(ones, pad, p + 1, vs));
    } else {
        let nb = p + 1;
        let v0 = vs[0];
        let tl = vs.drop_first();
        let k0 = nb * varint_chunks(v0 as nat, p);
        let lt = varints_len(tl, p);
        let rest = varints_value(tl, p) + pow2(lt) * ones;
        lemma_reads_bit_varints(tl, p, pad);
        lemma_pow2_adds(k0, lt);
        lemma_pow2_pos(k0);
        let total = varints_value(vs, p) + pow2(varints_len(vs, p)) * ones;
        assert(varints_len(vs, p) == k0 + lt);
        assert(total == varint_value(v0 as nat, p) + pow2(k0) * rest) by (nonlinear_arith)
            requires
                total == varint_value(v0 as nat, p) + pow2(k0) * varints_value(tl, p) + pow2(
                    k0 + lt,
                ) * ones,
                pow2(k0 + lt) == pow2(k0) * pow2(lt),
                rest == varints_value(tl, p) + pow2(lt) * ones,
        ;
        let nbu = (p + 1) as u8;
        assert(nbu as nat == nb && (nbu - 1) as nat == p);
        lemma_bit_varint_roundtrip_u32(v0, nbu, rest, k0 + lt + pad);
        assert(bit_varint_parse(total, k0 + lt + pad, nb, 0) == Some((v0 as nat, k0)));
        assert(reads_bit_varints(rest, lt + pad, nb, tl));
        assert((k0 + lt + pad - k0) as nat == lt + pad);
        lemma_varint_value_shape(v0 as nat, p);
        assert(nb * varint_chunks(v0 as nat, p) == (p + 1) * varint_chunks(v0 as nat, p));
        lemma_div_mod_add_multiple(varint_value(v0 as nat, p), rest, pow2(k0));
        lemma_basic_div(varint_value(v0 as nat, p) as int, pow2(k0) as int);
        assert(total / pow2(k0) == rest);
        assert(reads_bit_varints(total, k0 + lt + pad, nb, vs));
    }
}

/// The `q` low base-256 digits of a number spell it modulo `256^q`.
proof fn lemma_le_value_digits(v: nat, q: nat)
    ensures
        le_value(le_digits(v, q)) == v % pow2(8 * q),
    decreases q,
{
    lemma2_to64();
    if q == 0 {
        assert(le_digits(v, 0) =~= Seq::<u8>::empty());
    } else {
        let d = le_digits(v, q);
        lemma_le_value_digits(v / 256, (q - 1) as nat);
        assert forall|j: int| 0 <= j < q - 1 implies #[trigger] d.drop_first()[j] == le_digits(
            v / 256,
            (q - 1) as nat,
        )[j] by {
            lemma_pow2_adds(8, (8 * j) as nat);
            assert(8 * (j + 1) == 8 + 8 * j);
            lemma_pow2_pos((8 * j) as nat);
            lemma_div_denominator(v as int, 256, pow2((8 * j) as nat) as int);
        }
        assert(d.drop_first() =~= le_digits(v / 256, (q - 1) as nat));
        assert(d[0] == v % 256) by {
            assert(v / pow2(0) == v);
        }
        lemma_pow2_adds(8, (8 * (q - 1)) as nat);
        assert(8 * q == 8 + 8 * (q - 1));
        lemma_pow2_pos((8 * (q - 1)) as nat);
        lemma_mod_breakdown(v as int, 256, pow2((8 * (q - 1)) as nat) as int);
    }
}

/// The bytes a bit writer leaves after writing the varints of `vs` in
/// `nb`-bit chunks (from an empty buffer) read back as `vs`, one after the
/// other, with nothing but padding left after the last: a reader made on
/// them starts with the number they spell and eight bits a byte.
pub proof fn lemma_bit_varint_stream(vs: Seq<u32>, nb: u8)
    requires
        2 <= nb <= 8,
    ensures
        ({
            let p = (nb - 1) as nat;
            let len = varints_len(vs, p);
            let bytes = le_digits(padded(varints_value(vs, p), len), (len + pad_bits(len)) / 8);
            reads_bit_varints(le_value(bytes), 8 * bytes.len(), nb as nat, vs)
        }),
{
    lemma2_to64();
    let p = (nb - 1) as nat;
    let len = varints_len(vs, p);
    let pad = pad_bits(len);
    let q = (len + pad) / 8;
    let v = padded(varints_value(vs, p), len);
    assert((len + pad) % 8 == 0);
    assert(8 * q == len + pad);
    lemma_reads_bit_varints(vs, p, pad);
    assert(p + 1 == nb);
    lemma_varints_bound(vs, p);
    lemma_pow2_pos(pad);
    lemma_pow2_adds(len, pad);
    assert(v < pow2(len + pad)) by (nonlinear_arith)
        requires
            v == varints_value(vs, p) + pow2(len) * ((pow2(pad) - 1) as nat),
            varints_value(vs, p) < pow2(len),
            pow2(len + pad) == pow2(len) * pow2(pad),
            pow2(pad) >= 1,
    ;
    lemma_le_value_digits(v, q);
    lemma_small_mod(v, pow2(8 * q));
}

/// The varints of values spell a number below two to the number of their
/// bits.
proof fn lemma_varints_bound(vs: Seq<u32>, p: nat)
    requires
        1 <= p <= 7,
    ensures
        varints_value(vs, p) < pow2(varints_len(vs, p)),
    decreases vs.len(),
{
    lemma2_to64();
    if vs.len() > 0 {
        let v0 = vs[0] as nat;
        let tl = vs.drop_first();
        let k0 = (p + 1) * varint_chunks(v0, p);
        lemma_varints_bound(tl, p);
        lemma_varint_value_shape(v0, p);
        lemma_pow2_adds(k0, varints_len(tl, p));
        let a = varint_value(v0, p);
        let b = varints_value(tl, p);
        assert(a + pow2(k0) * b < pow2(k0) * pow2(varints_len(tl, p))) by (nonlinear_arith)
            requires
                a < pow2(k0),
                b < pow2(varints_len(tl, p)),
        ;
    }
}

/// Adding a multiple of the divisor adds to the quotient and keeps the
/// remainder.
proof fn lemma_div_mod_add_multiple(a: nat, c: nat, d: nat)
    requires
        d > 0,
    ensures
        (a + d * c) / d == a / d + c,
        (a + d * c) % d == a % d,
{
    lemma_fundamental_div_mod(a as int, d as int);
    let q = a / d;
    let r = a % d;
    assert(a + d * c == (q + c) * d + r) by (nonlinear_arith)
        requires
            a == d * q + r,
    ;
    lemma_fundamental_div_mod_converse((a + d * c) as int, d as int, (q + c) as int, r as int);
}

/// `2^k` for `k <= 15`.
fn pow2_u16(k: u8) -> (r: u16)
    requires
        k <= 15,
    ensures
        r == pow2(k as nat),
{
    proof {
        lemma2_to64();
    }
    let mut r: u16 = 1;
    let mut i: u8 = 0;
    while i < k
        invariant
            i <= k <= 15,
            r == pow2(i as nat),
        decreases k - i,
    {
        proof {
            lemma2_to64();
            lemma_pow2_adds(i as nat, 1);
            lemma_pow2_strictly_increases(i as nat, 15);
        }
        r = r * 2;
        i += 1;
    }
    r
}

/// `2^k` for `k <= 31`.
fn pow2_u32(k: u8) -> (r: u32)
    requires
        k <= 31,
    ensures
        r == pow2(k as nat),
{
    proof {
        lemma2_to64();
    }
    let mut r: u32 = 1;
    let mut i: u8 = 0;
    while i < k
        invariant
            i <= k <= 31,
            r == pow2(i as nat),
        decreases k - i,
    {
        proof {
            lemma2_to64();
            lemma_pow2_adds(i as nat, 1);
            lemma_pow2_strictly_increases(i as nat, 31);
        }
        r = r * 2;
        i += 1;
    }
    r
}

/// A writer of bits into a byte buffer; `finish` writes the last,
/// partly filled byte.
pub struct BitWriter<'a> {
    /// The buffer written to.
    pub buf: &'a mut Vec<u8>,
    /// The bits of the last byte written so far, waiting for the rest.
    pub pending: u16,
    /// The number of waiting bits.
    pub pending_bits: u8,
    /// What the buffer held before the writer was made.
    pub start: Ghost<Seq<u8>>,
    /// The number that the bits written so far spell.
    pub acc: Ghost<nat>,
    /// The number of bits written so far.
    pub len: Ghost<nat>,
}

impl<'a> BitWriter<'a> {
    /// The buffer holds what it held before followed by the complete bytes
    /// of the bits written, and the bits of the last byte wait.
    pub open spec fn wf(&self) -> bool {
        let q = self.len@ / 8;
        &&& self.pending_bits == self.len@ % 8
        &&& self.acc@ < pow2(self.len@)
        &&& (*self.buf)@ == self.start@ + le_digits(self.acc@, q)
        &&& self.pending == self.acc@ / pow2(8 * q)
    }

    /// Creates a writer appending to `buf`.
    pub fn new(buf: &'a mut Vec<u8>) -> (r: Self)
        ensures
            r.wf(),
            r.start@ == old(buf)@,
            r.acc@ == 0,
            r.len@ == 0,
            *final(r.buf) == *final(buf),
    {
        let ghost start = buf@;
        let r = BitWriter {
            buf,
            pending: 0,
            pending_bits: 0,
            start: Ghost(start),
            acc: Ghost(0),
            len: Ghost(0),
        };
        proof {
            lemma2_to64();
        }
        assert((*r.buf)@ =~= r.start@ + le_digits(0, 0));
        r
    }

    /// Writes the `n_bits` low bits of `n`.
    pub fn write(&mut self, n: u8, n_bits: u8)
        requires
            old(self).wf(),
            1 <= n_bits <= 8,
        ensures
            final(self).wf(),
            final(self).start == old(self).start,
            final(self).acc@ == old(self).acc@ + pow2(old(self).len@) * (n as nat % pow2(
                n_bits as nat,
            )),
            final(self).len@ == old(self).len@ + n_bits,
            *final(final(self).buf) == *final(old(self).buf),
    {
        let ghost acc = self.acc@;
        let ghost len = self.len@;
        let ghost q = len / 8;
        let ghost pb = self.pending_bits as nat;
        let ghost nbn = n_bits as nat;
        let m = pow2_u16(n_bits);
        proof {
            lemma_pow2_pos(nbn);
        }
        let x = (n as u16) % m;
        let p = pow2_u16(self.pending_bits);
        let ghost lo = pow2(8 * q);
        proof {
            lemma_pow2_pos(8 * q);
            lemma_pow2_pos(pb);
            lemma_pow2_pos(len);
            lemma_pow2_adds(8 * q, pb);
            lemma_pow2_adds(pb, nbn);
            lemma_pow2_adds(len, nbn);
            lemma2_to64();
            lemma_pow2_strictly_increases(pb + nbn, 16);
            lemma_fundamental_div_mod(acc as int, lo as int);
            assert(acc / lo < p) by (nonlinear_arith)
                requires
                    acc < lo * p,
                    lo > 0,
            ;
            assert(self.pending + p * x < p * m) by (nonlinear_arith)
                requires
                    self.pending < p,
                    x < m,
            ;
        }
        let ghost acc2 = acc + pow2(len) * (x as nat);
        proof {
            assert(pow2(len) == lo * p);
            assert(acc2 == acc + lo * (p * x)) by (nonlinear_arith)
                requires
                    acc2 == acc + pow2(len) * x,
                    pow2(len) == lo * p,
            ;
            lemma_div_mod_add_multiple(acc, (p * x) as nat, lo);
            assert(acc2 < pow2(len + nbn)) by (nonlinear_arith)
                requires
                    acc < pow2(len),
                    x < m,
                    pow2(len + nbn) == pow2(len) * m,
                    acc2 == acc + pow2(len) * x,
            ;
            assert forall|j: int| 0 <= j < q implies #[trigger] le_digits(acc2, q)[j] == le_digits(
                acc,
                q,
            )[j] by {
                let lj = pow2((8 * j) as nat);
                let hi = pow2((len - 8 * j - 8) as nat);
                lemma_pow2_pos((8 * j) as nat);
                lemma_pow2_adds((8 * j) as nat, (len - 8 * j) as nat);
                lemma_pow2_adds(8, (len - 8 * j - 8) as nat);
                assert(pow2(8) == 256);
                assert(acc2 == acc + lj * (256 * hi * x)) by (nonlinear_arith)
                    requires
                        acc2 == acc + pow2(len) * x,
                        pow2(len) == lj * pow2((len - 8 * j) as nat),
                        pow2((len - 8 * j) as nat) == 256 * hi,
                ;
                lemma_div_mod_add_multiple(acc, (256 * hi * x) as nat, lj);
                assert((acc / lj + 256 * (hi * x)) % 256 == (acc / lj) % 256) by {
                    lemma_div_mod_add_multiple(acc / lj, (hi * x) as nat, 256);
                }
                assert(256 * hi * x == 256 * (hi * x)) by (nonlinear_arith);
            }
            assert(le_digits(acc2, q) =~= le_digits(acc, q));
        }
        self.pending = self.pending + p * x;
        self.pending_bits = self.pending_bits + n_bits;
        self.acc = Ghost(acc2);
        self.len = Ghost(len + nbn);
        if self.pending_bits >= 8 {
            let ghost pend = self.pending as nat;
            proof {
                assert(pend == acc2 / lo);
                assert((len + nbn) / 8 == q + 1);
                lemma_pow2_adds(8 * q, 8);
                assert(pow2(8) == 256);
                lemma_div_denominator(acc2 as int, lo as int, 256);
                assert(le_digits(acc2, q + 1) =~= le_digits(acc2, q).push(((acc2 / lo) % 256) as u8));
            }
            self.buf.push((self.pending % 256) as u8);
            self.pending = self.pending / 256;
            self.pending_bits = self.pending_bits - 8;
        } else {
            assert((len + nbn) / 8 == q);
        }
        assert(x as nat == n as nat % pow2(n_bits as nat));
    }

    /// Writes a `u32` as a varint of `n_bits`-bit chunks: `n_bits - 1` bits
    /// of payload each, least significant first, the top bit set on every
    /// chunk but the last.
    pub fn write_u32_varint(&mut self, n: u32, n_bits: u8)
        requires
            old(self).wf(),
            2 <= n_bits <= 8,
        ensures
            final(self).wf(),
            final(self).start == old(self).start,
            final(self).acc@ == old(self).acc@ + pow2(old(self).len@) * varint_value(
                n as nat,
                (n_bits - 1) as nat,
            ),
            final(self).len@ == old(self).len@ + n_bits * varint_chunks(n as nat, (n_bits - 1) as nat),
            *final(final(self).buf) == *final(old(self).buf),
    {
        let payload_bits = n_bits - 1;
        let cont = pow2_u16(payload_bits);
        let ghost p = payload_bits as nat;
        let ghost nbn = n_bits as nat;
        let ghost acc0 = self.acc@;
        let ghost len0 = self.len@;
        let ghost out = *final(self.buf);
        let mut n = n;
        let ghost orig = n as nat;
        proof {
            lemma_pow2_pos(p);
            lemma_pow2_adds(p, 1);
            lemma2_to64();
            if p < 7 {
                lemma_pow2_strictly_increases(p, 7);
            }
        }
        while n >= cont as u32
            invariant
                self.wf(),
                self.start == old(self).start,
                *final(self.buf) == out,
                out == *final(old(self).buf),
                2 <= n_bits <= 8,
                nbn == n_bits,
                p == payload_bits,
                payload_bits == n_bits - 1,
                cont == pow2(p),
                pow2(nbn) == 2 * cont,
                1 <= cont <= 128,
                acc0 + pow2(len0) * varint_value(orig, p) == self.acc@ + pow2(self.len@)
                    * varint_value(n as nat, p),
                len0 + nbn * varint_chunks(orig, p) == self.len@ + nbn * varint_chunks(n as nat, p),
            decreases n,
        {
            let ghost acc = self.acc@;
            let ghost len = self.len@;
            let chunk = ((n % (cont as u32)) as u16 + cont) as u8;
            proof {
                lemma_small_mod(chunk as nat, pow2(nbn));
                lemma_pow2_adds(len, nbn);
                lemma_pow2_pos(len);
                lemma_varint_step(n as nat, p);
            }
            self.write(chunk, n_bits);
            n = n / (cont as u32);
            proof {
                let rest = varint_value(n as nat, p);
                assert(acc + pow2(len) * (chunk + pow2(nbn) * rest) == acc + pow2(len) * chunk
                    + pow2(len + nbn) * rest) by (nonlinear_arith)
                    requires
                        pow2(len + nbn) == pow2(len) * pow2(nbn),
                ;
                assert(nbn * (1 + varint_chunks(n as nat, p)) == nbn + nbn * varint_chunks(
                    n as nat,
                    p,
                )) by (nonlinear_arith);
            }
        }
        proof {
            lemma_small_mod(n as nat, pow2(nbn));
            assert(nbn * 1 == nbn);
        }
        self.write(n as u8, n_bits);
    }

    /// Writes the last, partly filled byte (with one bits above the bits
    /// written) and gives the buffer back.
    pub fn finish(self)
        requires
            self.wf(),
        ensures
            (*final(self.buf))@ == self.start@ + le_digits(
                padded(self.acc@, self.len@),
                (self.len@ + pad_bits(self.len@)) / 8,
            ),
    {
        let ghost acc = self.acc@;
        let ghost len = self.len@;
        let ghost q = len / 8;
        let ghost pb = self.pending_bits as nat;
        let buf = self.buf;
        if self.pending_bits > 0 {
            let p = pow2_u16(self.pending_bits);
            let ghost lo = pow2(8 * q);
            let ghost pad = pad_bits(len);
            let ghost acc2 = padded(acc, len);
            proof {
                lemma2_to64();
                lemma_pow2_pos(8 * q);
                lemma_pow2_pos(len);
                lemma_pow2_adds(8 * q, pb);
                lemma_pow2_adds(pb, pad);
                assert(pb + pad == 8);
                lemma_pow2_pos(pad);
                lemma_fundamental_div_mod(acc as int, lo as int);
                assert(acc / lo < p) by (nonlinear_arith)
                    requires
                        acc < lo * p,
                        lo > 0,
                ;
                let top = (pow2(pad) - 1) as nat;
                assert(acc2 == acc + lo * (p * top)) by (nonlinear_arith)
                    requires
                        acc2 == acc + pow2(len) * top,
                        pow2(len) == lo * p,
                ;
                lemma_div_mod_add_multiple(acc, (p * top) as nat, lo);
                assert(p * top == 256 - p) by (nonlinear_arith)
                    requires
                        p * pow2(pad) == 256,
                        top == pow2(pad) - 1,
                ;
                assert forall|j: int| 0 <= j < q implies #[trigger] le_digits(acc2, q)[j]
                    == le_digits(acc, q)[j] by {
                    let lj = pow2((8 * j) as nat);
                    let hi = pow2((len - 8 * j - 8) as nat);
                    lemma_pow2_pos((8 * j) as nat);
                    lemma_pow2_adds((8 * j) as nat, (len - 8 * j) as nat);
                    lemma_pow2_adds(8, (len - 8 * j - 8) as nat);
                    assert(acc2 == acc + lj * (256 * hi * top)) by (nonlinear_arith)
                        requires
                            acc2 == acc + pow2(len) * top,
                            pow2(len) == lj * pow2((len - 8 * j) as nat),
                            pow2((len - 8 * j) as nat) == 256 * hi,
                    ;
                    lemma_div_mod_add_multiple(acc, (256 * hi * top) as nat, lj);
                    lemma_div_mod_add_multiple(acc / lj, (hi * top) as nat, 256);
                    assert(256 * hi * top == 256 * (hi * top)) by (nonlinear_arith);
                }
                assert((len + pad) / 8 == q + 1);
                assert(le_digits(acc2, q) =~= le_digits(acc, q));
                assert(le_digits(acc2, q + 1) =~= le_digits(acc2, q).push(((acc2 / lo) % 256) as u8));
            }
            buf.push((self.pending + (256 - p)) as u8);
        } else {
            assert(pad_bits(len) == 0);
            assert(padded(acc, len) == acc) by {
                lemma2_to64();
                assert(pow2(0) == 1);
                assert((pow2(pad_bits(len)) - 1) as nat == 0);
                assert(pow2(len) * 0 == 0);
            }
        }
    }
}

/// A reader of bits from a byte slice, which it advances byte by byte.
pub struct BitReader<'a, 'b> {
    /// The bytes not yet taken.
    pub buf: &'b mut &'a [u8],
    /// The bits of the last byte taken that are not yet read.
    pub pending: u16,
    /// The number of those bits.
    pub pending_bits: u8,
}

impl<'a, 'b> BitReader<'a, 'b> {
    /// The bytes not yet taken.
    pub open spec fn bytes(&self) -> Seq<u8> {
        (*self.buf)@
    }

    /// The number that the bits not yet read spell.
    pub open spec fn rest_value(&self) -> nat {
        self.pending as nat + pow2(self.pending_bits as nat) * le_value(self.bytes())
    }

    /// The number of bits not yet read.
    pub open spec fn rest_len(&self) -> nat {
        self.pending_bits as nat + 8 * self.bytes().len()
    }

    /// The waiting bits are no more than their count allows.
    pub open spec fn wf(&self) -> bool {
        self.pending_bits <= 15 && (self.pending as nat) < pow2(self.pending_bits as nat)
    }

    /// Creates a reader taking bytes from `buf`.
    pub fn new(buf: &'b mut &'a [u8]) -> (r: Self)
        ensures
            r.wf(),
            r.pending_bits == 0,
            *r.buf == *old(buf),
            r.rest_value() == le_value(old(buf)@),
            r.rest_len() == 8 * old(buf)@.len(),
            *final(r.buf) == *final(buf),
    {
        proof {
            lemma2_to64();
        }
        BitReader { buf, pending: 0, pending_bits: 0 }
    }

    /// Tests whether anything is left but one bits that fill the last byte.
    pub fn has_remaining(&self) -> (r: bool)
        requires
            self.wf(),
        ensures
            r == (self.bytes().len() > 0 || self.rest_value() + 1 != pow2(self.rest_len())),
    {
        if self.buf.len() != 0 {
            return true;
        }
        proof {
            assert(le_value(self.bytes()) == 0);
            assert(self.rest_value() == self.pending as nat);
        }
        if self.pending_bits == 0 {
            proof {
                lemma2_to64();
            }
            return false;
        }
        let mask = pow2_u16(self.pending_bits) - 1;
        self.pending != mask
    }

    /// Reads `n_bits` bits as a number, or fails, taking nothing, where
    /// fewer remain.
    pub fn read(&mut self, n_bits: u8) -> (r: Option<u8>)
        requires
            old(self).wf(),
            1 <= n_bits <= 8,
        ensures
            final(self).wf(),
            *final(final(self).buf) == *final(old(self).buf),
            is_suffix(final(self).bytes(), old(self).bytes()),
            old(self).rest_len() < n_bits ==> r is None && final(self).rest_value() == old(self).rest_value() && final(self).rest_len() == old(self).rest_len(),
            old(self).rest_len() >= n_bits ==> r == Some(
                (old(self).rest_value() % pow2(n_bits as nat)) as u8,
            ) && final(self).rest_value() == old(self).rest_value() / pow2(n_bits as nat) && final(self).rest_len() == old(self).rest_len() - n_bits,
    {
        let ghost bytes = self.bytes();
        let ghost v = old(self).rest_value();
        let ghost nbn = n_bits as nat;
        proof {
            lemma_suffix_refl(bytes);
            lemma2_to64();
        }
        if self.pending_bits < n_bits {
            if self.buf.len() == 0 {
                return None;
            }
            let b = self.buf[0];
            let len = self.buf.len();
            *self.buf = &self.buf[1..len];
            let p = pow2_u16(self.pending_bits);
            let ghost pb = self.pending_bits as nat;
            proof {
                if pb < 7 {
                    lemma_pow2_strictly_increases(pb, 7);
                }
                assert(self.pending + p * (b as u16) < p * 256) by (nonlinear_arith)
                    requires
                        self.pending < p,
                        b < 256,
                ;
                lemma_pow2_adds(pb, 8);
                assert(self.bytes() =~= bytes.drop_first());
                assert(bytes.drop_first() =~= bytes.skip(1));
                let rest = le_value(self.bytes());
                assert(self.pending + p * b + pow2(pb + 8) * rest == self.pending + p * (b + 256
                    * rest)) by (nonlinear_arith)
                    requires
                        pow2(pb + 8) == p * 256,
                ;
            }
            self.pending = self.pending + p * (b as u16);
            self.pending_bits = self.pending_bits + 8;
        }
        let m = pow2_u16(n_bits);
        let ghost pb = self.pending_bits as nat;
        let ghost rest = le_value(self.bytes());
        proof {
            lemma_pow2_pos(nbn);
            lemma_pow2_adds(nbn, (pb - nbn) as nat);
            let hi = pow2((pb - nbn) as nat);
            assert(v == self.pending + m * (hi * rest)) by (nonlinear_arith)
                requires
                    v == self.pending + pow2(pb) * rest,
                    pow2(pb) == m * hi,
            ;
            lemma_div_mod_add_multiple(self.pending as nat, hi * rest, m as nat);
            lemma_fundamental_div_mod(self.pending as int, m as int);
            assert(self.pending / m < hi) by (nonlinear_arith)
                requires
                    self.pending < m * hi,
                    m > 0,
            ;
        }
        let res = (self.pending % m) as u8;
        self.pending = self.pending / m;
        self.pending_bits = self.pending_bits - n_bits;
        Some(res)
    }

    /// Reads a varint of `n_bits`-bit chunks into a `u32`: `n_bits - 1`
    /// bits of payload each, least significant first, the top bit set on
    /// every chunk but the last.
    pub fn read_u32_varint(&mut self, n_bits: u8) -> (r: Option<u32>)
        requires
            old(self).wf(),
            2 <= n_bits <= 8,
        ensures
            final(self).wf(),
            *final(final(self).buf) == *final(old(self).buf),
            is_suffix(final(self).bytes(), old(self).bytes()),
            match bit_varint_parse(old(self).rest_value(), old(self).rest_len(), n_bits as nat, 0) {
                Some((v, k)) => r == Some(v as u32) && final(self).rest_value() == old(self).rest_value() / pow2(k) && final(self).rest_len() == old(self).rest_len() - k,
                None => r is None,
            },
    {
        let payload_bits = n_bits - 1;
        let cont = pow2_u16(payload_bits) as u8;
        let ghost p = payload_bits as nat;
        let ghost nbn = n_bits as nat;
        let ghost v0 = self.rest_value();
        let ghost l0 = self.rest_len();
        let ghost out = *final(self.buf);
        let ghost mut consumed: nat = 0;
        let mut n: u32 = 0;
        let mut shift: u8 = 0;
        proof {
            lemma2_to64();
            lemma_suffix_refl(self.bytes());
            if p < 7 {
                lemma_pow2_strictly_increases(p, 7);
            }
            lemma_pow2_adds(p, 1);
        }
        loop
            invariant
                self.wf(),
                *final(self.buf) == out,
                out == *final(old(self).buf),
                is_suffix(self.bytes(), old(self).bytes()),
                2 <= n_bits <= 8,
                nbn == n_bits,
                p == payload_bits,
                payload_bits == n_bits - 1,
                cont == pow2(p),
                pow2(nbn) == 2 * pow2(p),
                1 <= cont <= 128,
                shift < 32,
                (n as nat) < pow2(shift as nat),
                consumed <= l0,
                self.rest_len() == l0 - consumed,
                self.rest_value() == v0 / pow2(consumed),
                v0 == old(self).rest_value(),
                l0 == old(self).rest_len(),
                bit_varint_parse(v0, l0, nbn, 0) == match bit_varint_parse(
                    self.rest_value(),
                    self.rest_len(),
                    nbn,
                    shift as nat,
                ) {
                    Some((w, k)) => Some(((n + w) as nat, consumed + k)),
                    None => None,
                },
            decreases 32 - shift,
        {
            let ghost rv = self.rest_value();
            let ghost rl = self.rest_len();
            let ghost bytes = self.bytes();
            proof {
                lemma2_to64();
            }
            let b = match self.read(n_bits) {
                Some(b) => b,
                None => {
                    proof {
                        lemma_suffix_trans(self.bytes(), bytes, old(self).bytes());
                    }
                    return None;
                },
            };
            proof {
                lemma_suffix_trans(self.bytes(), bytes, old(self).bytes());
                lemma_pow2_pos(consumed);
                lemma_pow2_pos(nbn);
                lemma_div_denominator(v0 as int, pow2(consumed) as int, pow2(nbn) as int);
                lemma_pow2_adds(consumed, nbn);
                assert(b as nat == rv % pow2(nbn));
            }
            let payload = b % cont;
            if shift + payload_bits > 32 {
                let allowed = 32 - shift;
                proof {
                    lemma_pow2_strictly_increases(allowed as nat, 7);
                }
                if payload >= pow2_u16(allowed) as u8 {
                    return None;
                }
            }
            let pw = pow2_u32(shift);
            proof {
                lemma_pow2_pos(shift as nat);
                lemma_pow2_adds(shift as nat, p);
                if shift + payload_bits > 32 {
                    let a = (32 - shift) as nat;
                    lemma_pow2_adds(shift as nat, a);
                    assert(n + payload * pw < pow2(32)) by (nonlinear_arith)
                        requires
                            n < pw,
                            payload < pow2(a),
                            pow2(shift as nat + a) == pw * pow2(a),
                            shift as nat + a == 32,
                    ;
                } else {
                    if shift + payload_bits < 32 {
                        lemma_pow2_strictly_increases((shift + payload_bits) as nat, 32);
                    }
                    assert(n + payload * pw < pow2(shift as nat + p)) by (nonlinear_arith)
                        requires
                            n < pw,
                            payload < pow2(p),
                            pow2(shift as nat + p) == pw * pow2(p),
                    ;
                }
                assert(n + payload * pw < pow2(shift as nat + p)) by (nonlinear_arith)
                    requires
                        n < pw,
                        payload < pow2(p),
                        pow2(shift as nat + p) == pw * pow2(p),
                ;
            }
            n = n + (payload as u32) * pw;
            proof {
                consumed = consumed + nbn;
            }
            if b < cont {
                return Some(n);
            }
            shift = shift + payload_bits;
            if shift >= 32 {
                return None;
            }
        }
    }
}

} // verus!
