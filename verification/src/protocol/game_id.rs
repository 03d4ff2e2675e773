//! Game IDs and their eleven-character Base62 form.
use crate::ext::string_from_ascii;
use vstd::arithmetic::div_mod::{lemma_div_denominator, lemma_mod_breakdown};
use vstd::prelude::*;

verus! {

/// The number of characters of a game ID in Base62.
pub const BASE62_LEN: usize = 11;

/// The value of a Base62 character: `0-9`, then `A-Z`, then `a-z`.
pub open spec fn base62_digit(c: u8) -> Option<nat> {
    if 48 <= c <= 57 {
        Some((c - 48) as nat)
    } else if 65 <= c <= 90 {
        Some((c - 55) as nat)
    } else if 97 <= c <= 122 {
        Some((c - 61) as nat)
    } else {
        None
    }
}

/// The Base62 character of a digit below 62.
pub open spec fn base62_char(d: nat) -> u8 {
    if d < 10 {
        (48 + d) as u8
    } else if d < 36 {
        (55 + d) as u8
    } else {
        (61 + d) as u8
    }
}

/// The number that Base62 characters spell, most significant first, if
/// they all are Base62 characters.
pub open spec fn base62_value(s: Seq<u8>) -> Option<nat>
    decreases s.len(),
{
    if s.len() == 0 {
        Some(0)
    } else {
        match (base62_value(s.drop_last()), base62_digit(s.last())) {
            (Some(v), Some(d)) => Some(v * 62 + d),
            _ => None,
        }
    }
}

/// `62^e`.
pub open spec fn pow62(e: nat) -> nat
    decreases e,
{
    if e == 0 {
        1
    } else {
        62 * pow62((e - 1) as nat)
    }
}

/// Powers of 62 are positive.
proof fn lemma_pow62_positive(e: nat)
    ensures
        pow62(e) >= 1,
    decreases e,
{
    if e > 0 {
        lemma_pow62_positive((e - 1) as nat);
    }
}

/// The `len` lowest Base62 digits of `n`, most significant first.
pub open spec fn base62_bytes(n: nat, len: nat) -> Seq<u8> {
    Seq::new(len, |j: int| base62_char((n / pow62((len - 1 - j) as nat)) % 62))
}

/// The game ID that eleven Base62 characters spell, if they do and the
/// number fits in a `u64` (whose bits the ID takes).
pub open spec fn id_of_base62(s: Seq<u8>) -> Option<GameId> {
    if s.len() != BASE62_LEN {
        None
    } else {
        match base62_value(s) {
            Some(v) => if v <= u64::MAX {
                Some(GameId((v as u64) as i64))
            } else {
                None
            },
            None => None,
        }
    }
}

/// A game ID.
#[derive(Clone, Copy, Debug, Eq, Hash, PartialEq, Structural)]
pub struct GameId(pub i64);

/// The value of a Base62 character, as a table lookup.
fn base62_digit_of(c: u8) -> (r: Option<u8>)
    ensures
        match base62_digit(c) {
            Some(d) => r == Some(d as u8),
            None => r is None,
        },
{
    if 48 <= c && c <= 57 {
        Some(c - 48)
    } else if 65 <= c && c <= 90 {
        Some(c - 55)
    } else if 97 <= c && c <= 122 {
        Some(c - 61)
    } else {
        None
    }
}

/// The Base62 character of a digit.
fn base62_char_of(d: u8) -> (r: u8)
    requires
        d < 62,
    ensures
        r == base62_char(d as nat),
{
    if d < 10 {
        48 + d
    } else if d < 36 {
        55 + d
    } else {
        61 + d
    }
}

/// The characters of a prefix spell a number no greater than the whole.
proof fn lemma_base62_prefix(s: Seq<u8>, i: int)
    requires
        0 <= i <= s.len(),
    ensures
        base62_value(s) matches Some(v) ==> (base62_value(s.take(i)) matches Some(w) && w <= v),
    decreases s.len() - i,
{
    if i < s.len() {
        lemma_base62_prefix(s, i + 1);
        assert(s.take(i + 1).drop_last() =~= s.take(i));
    } else {
        assert(s.take(i) =~= s);
    }
}

/// The lowest `len` Base62 digits of `n` spell `n` modulo `62^len`.
proof fn lemma_base62_bytes_value(n: nat, len: nat)
    ensures
        base62_value(base62_bytes(n, len)) == Some(n % pow62(len)),
        forall|j: int| 0 <= j < len ==> #[trigger] base62_bytes(n, len)[j] < 128,
    decreases len,
{
    lemma_pow62_positive(len);
    let s = base62_bytes(n, len);
    assert forall|j: int| 0 <= j < len implies #[trigger] s[j] < 128 by {
        let d = (n / pow62((len - 1 - j) as nat)) % 62;
        assert(d < 62);
    }
    if len == 0 {
        assert(n % 1 == 0);
    } else {
        let m = n / 62;
        lemma_base62_bytes_value(m, (len - 1) as nat);
        assert(s.drop_last() =~= base62_bytes(m, (len - 1) as nat)) by {
            assert forall|j: int| 0 <= j < len - 1 implies s.drop_last()[j] == base62_bytes(
                m,
                (len - 1) as nat,
            )[j] by {
                let e = (len - 2 - j) as nat;
                lemma_pow62_positive(e);
                lemma_div_denominator(n as int, 62, pow62(e) as int);
                assert(pow62((e + 1) as nat) == 62 * pow62(e));
                assert((len - 1 - j) as nat == e + 1);
            }
        }
        assert(pow62(0) == 1);
        assert(n / 1 == n);
        assert(s.last() == base62_char(n % 62));
        let d = n % 62;
        assert(base62_digit(base62_char(d)) == Some(d));
        lemma_pow62_positive((len - 1) as nat);
        lemma_mod_breakdown(n as int, 62, pow62((len - 1) as nat) as int);
        assert(pow62(len) == 62 * pow62((len - 1) as nat));
    }
}

impl GameId {
    /// Decodes a Base62-encoded game ID.
    pub fn from_base62(buf: &[u8]) -> (r: Option<Self>)
        ensures
            r == id_of_base62(buf@),
    {
        if buf.len() != BASE62_LEN {
            return None;
        }
        let mut n: u64 = 0;
        let mut i: usize = 0;
        while i < BASE62_LEN
            invariant
                i <= BASE62_LEN,
                buf@.len() == BASE62_LEN,
                base62_value(buf@.take(i as int)) == Some(n as nat),
            decreases BASE62_LEN - i,
        {
            proof {
                lemma_base62_prefix(buf@, i + 1);
                assert(buf@.take(i + 1).drop_last() =~= buf@.take(i as int));
            }
            let x = match base62_digit_of(buf[i]) {
                Some(d) => d,
                None => return None,
            };
            n = match n.checked_mul(62) {
                Some(m) => m,
                None => return None,
            };
            n = match n.checked_add(x as u64) {
                Some(m) => m,
                None => return None,
            };
            i += 1;
        }
        assert(buf@.take(BASE62_LEN as int) =~= buf@);
        Some(GameId(n as i64))
    }

    /// Encodes the game ID in Base62: the eleven lowest digits of its bits
    /// read as a `u64`, which are all of them.
    pub fn to_base62(&self) -> (r: String)
        ensures
            r@ == base62_bytes((self.0 as u64) as nat, 11).map_values(|b: u8| b as char),
    {
        let orig: u64 = #[verifier::truncate] (self.0 as u64);
        let mut n: u64 = orig;
        let mut buf: Vec<u8> = Vec::new();
        let mut k: usize = 0;
        while k < BASE62_LEN
            invariant
                k <= BASE62_LEN,
                buf@.len() == k,
                forall|j: int| 0 <= j < k ==> buf@[j] == 48,
            decreases BASE62_LEN - k,
        {
            buf.push(48);
            k += 1;
        }
        let ghost target = base62_bytes(orig as nat, 11);
        let mut i: usize = BASE62_LEN;
        proof {
            assert(pow62(0) == 1);
            assert(orig as nat / 1 == orig as nat);
        }
        while i > 0
            invariant
                i <= BASE62_LEN,
                buf@.len() == BASE62_LEN,
                n as nat == orig as nat / pow62((11 - i) as nat),
                forall|j: int| i <= j < 11 ==> buf@[j] == target[j],
                target == base62_bytes(orig as nat, 11),
            decreases i,
        {
            i -= 1;
            proof {
                lemma_pow62_positive((10 - i) as nat);
            }
            let c = base62_char_of((n % 62) as u8);
            buf.set(i, c);
            proof {
                lemma_div_denominator(orig as int, pow62((10 - i) as nat) as int, 62);
                assert(pow62((11 - i) as nat) == 62 * pow62((10 - i) as nat));
                assert(pow62((10 - i) as nat) * 62 == 62 * pow62((10 - i) as nat));
            }
            n = n / 62;
        }
        proof {
            lemma_base62_bytes_value(orig as nat, 11);
        }
        assert(buf@ =~= target);
        string_from_ascii(buf)
    }
}

/// A game ID read back from its Base62 form is the same game ID.
pub proof fn lemma_base62_roundtrip(id: GameId)
    ensures
        id_of_base62(base62_bytes((id.0 as u64) as nat, 11)) == Some(id),
{
    let v = (id.0 as u64) as nat;
    lemma_base62_bytes_value(v, 11);
    assert(pow62(11) == 52036560683837093888) by {
        reveal_with_fuel(pow62, 12);
    }
    assert(v % 52036560683837093888 == v);
    let x = id.0;
    let u = x as u64;
    assert((u as i64) == x) by (bit_vector)
        requires
            u == x as u64,
    ;
}

/// The character code of the Base62 digit `d`: the digits `0` to `9`,
/// then the capital letters `A` to `Z`, then the small letters `a` to `z`.
pub open spec fn alphabet_code(d: int) -> int {
    if d < 10 {
        ('0' as int) + d
    } else if d < 36 {
        ('A' as int) + (d - 10)
    } else {
        ('a' as int) + (d - 36)
    }
}

/// The Base62 alphabet is `0-9`, `A-Z`, `a-z` in that order: each digit is
/// written as its character in that alphabet and read back as itself, and
/// only those characters are read, each as its place in the alphabet.
pub proof fn lemma_base62_alphabet()
    ensures
        forall|d: nat| d < 62 ==> #[trigger] base62_char(d) as int == alphabet_code(d as int),
        forall|d: nat| d < 62 ==> base62_digit(#[trigger] base62_char(d)) == Some(d),
        forall|c: u8| #[trigger] base62_digit(c) matches Some(d) ==> d < 62 && alphabet_code(d as int)
            == c as int,
{
    assert('0' as int == 48 && 'A' as int == 65 && 'a' as int == 97);
}

/// The Base62 form of a game ID spells its bits, as an unsigned number, in
/// the alphabet `0-9A-Za-z`, most significant digit first: the character
/// at place `j` is that of digit `10 - j`.
pub proof fn lemma_base62_spells(id: GameId)
    ensures
        forall|j: int|
            0 <= j < 11 ==> #[trigger] base62_bytes((id.0 as u64) as nat, 11)[j] as int == alphabet_code(
                (((id.0 as u64) as nat / pow62((10 - j) as nat)) % 62) as int,
            ),
{
    lemma_base62_alphabet();
    assert forall|j: int| 0 <= j < 11 implies #[trigger] base62_bytes((id.0 as u64) as nat, 11)[j]
        as int == alphabet_code((((id.0 as u64) as nat / pow62((10 - j) as nat)) % 62) as int) by {
        let d = ((id.0 as u64) as nat / pow62((10 - j) as nat)) % 62;
        assert(base62_char(d) as int == alphabet_code(d as int));
    }
}

} // verus!
