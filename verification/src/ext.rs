//! Calls into `std` functions that vstd leaves unspecified, and into the
//! outside crates `bytes`, `bytes_varint`, `argon2` and `base64`.
use crate::codec::{be64, be64_value, is_suffix, varint_bytes, varint_parse_u32};
use base64::alphabet::{STANDARD, URL_SAFE};
use base64::engine::{DecodePaddingMode, GeneralPurpose, GeneralPurposeConfig};
use base64::Engine;
use bytes::{Buf, BufMut};
use bytes_varint::{VarIntSupport, VarIntSupportMut};
use vstd::prelude::*;

verus! {

/// Calls `bytes_varint::VarIntSupportMut::put_u32_varint` on a `Vec<u8>`,
/// which appends the seven-bit groups of `n`, least significant first,
/// the high bit set on every byte but the last (`varint_bytes`).
#[verifier::external_body]
pub(crate) fn put_u32_varint(buf: &mut Vec<u8>, n: u32)
    ensures
        final(buf)@ == old(buf)@ + varint_bytes(n as nat),
{
    buf.put_u32_varint(n);
}

/// Calls `bytes_varint::VarIntSupport::try_get_u32_varint` on a `&[u8]`,
/// which reads the bytes that `varint_parse_u32` describes and consumes
/// them, or fails on a buffer that ends early or on a value beyond `u32`.
/// On failure the slice keeps some suffix of what it held (where it stops
/// is left unsaid).
#[verifier::external_body]
pub(crate) fn try_get_u32_varint(buf: &mut &[u8]) -> (r: Option<u32>)
    ensures
        match varint_parse_u32(old(buf)@) {
            Some((v, k)) => r == Some(v as u32) && final(buf)@ == old(buf)@.skip(k as int),
            None => r is None && is_suffix(final(buf)@, old(buf)@),
        },
{
    buf.try_get_u32_varint().ok()
}

/// Calls `bytes::BufMut::put_i64` on a `Vec<u8>`, which appends the
/// big-endian bytes of `n` (`n.to_be_bytes()`).
#[verifier::external_body]
pub(crate) fn put_i64(buf: &mut Vec<u8>, n: i64)
    ensures
        final(buf)@ == old(buf)@ + be64(n),
{
    buf.put_i64(n);
}

/// Calls `bytes::Buf::try_get_i64` on a `&[u8]`, which fails and leaves
/// the slice as it was where fewer than eight bytes remain, and otherwise
/// reads them as a big-endian `i64` and consumes them.
#[verifier::external_body]
pub(crate) fn try_get_i64(buf: &mut &[u8]) -> (r: Option<i64>)
    ensures
        old(buf)@.len() < 8 ==> r is None && final(buf)@ == old(buf)@,
        old(buf)@.len() >= 8 ==> r == Some(be64_value(old(buf)@)) && final(buf)@ == old(
            buf,
        )@.skip(8),
{
    buf.try_get_i64().ok()
}

/// Calls `String::from_utf8`, which on ASCII bytes gives the string of
/// those characters (the `requires` rules out its error, whose empty
/// default is then never taken).
#[verifier::external_body]
pub(crate) fn string_from_ascii(bytes: Vec<u8>) -> (r: String)
    requires
        forall|i: int| 0 <= i < bytes@.len() ==> #[trigger] bytes@[i] < 128,
    ensures
        r@ == bytes@.map_values(|b: u8| b as char),
{
    String::from_utf8(bytes).unwrap_or_default()
}

/// The eight-byte Argon2id digest of a password with a salt under the
/// default parameters of the `argon2` crate, or the text of the error it
/// returns where it refuses them.
pub uninterp spec fn argon2id_digest(password: Seq<u8>, salt: Seq<u8>) -> Result<Seq<u8>, Seq<char>>;

/// Calls `argon2::Argon2::hash_password_into` on the default context
/// (Argon2id, version 0x13, default memory, passes and lanes) with an
/// eight-byte output buffer: the digest it fills the buffer with, or the
/// text (`to_string`) of the error it returns (a password or salt of a
/// length it refuses). What the digest and the text are, is left to the
/// name `argon2id_digest`.
#[verifier::external_body]
pub(crate) fn argon2id_hash_into(password: &[u8], salt: &[u8]) -> (r: Result<Vec<u8>, String>)
    ensures
        match r {
            Ok(d) => argon2id_digest(password@, salt@) == Ok::<Seq<u8>, Seq<char>>(d@) && d@.len()
                == 8,
            Err(e) => argon2id_digest(password@, salt@) == Err::<Seq<u8>, Seq<char>>(e@),
        },
{
    let mut out = [0u8; 8];
    match argon2::Argon2::default().hash_password_into(password, salt, &mut out) {
        Ok(()) => Ok(out.to_vec()),
        Err(e) => Err(e.to_string()),
    }
}

/// The two base64 engines in use, both writing no padding.
#[derive(Clone, Copy, Debug, Eq, PartialEq, Structural)]
pub enum Base64Engine {
    /// The standard alphabet (`+` and `/`), reading padding or its absence.
    Standard,
    /// The URL-safe alphabet (`-` and `_`), refusing padding.
    UrlSafe,
}

/// The bytes that `engine` decodes `text` to, or `None` where `text` is
/// not base64 that it accepts.
pub uninterp spec fn base64_decoded(engine: Base64Engine, text: Seq<u8>) -> Option<Seq<u8>>;

/// The base64 of `bytes` that `engine` writes.
pub uninterp spec fn base64_encoded(engine: Base64Engine, bytes: Seq<u8>) -> Seq<char>;

/// The bytes of a string of ASCII characters.
pub open spec fn ascii_bytes(text: Seq<char>) -> Seq<u8> {
    text.map_values(|c: char| c as u8)
}

/// Whether every character is ASCII.
pub open spec fn all_ascii(text: Seq<char>) -> bool {
    forall|i: int| 0 <= i < text.len() ==> (#[trigger] text[i] as u32) < 128
}

/// Calls `base64::Engine::decode` on the `GeneralPurpose` engine that
/// `engine` stands for: the decoded bytes, or `None` on a decode error.
/// What they are is left to the name `base64_decoded`.
#[verifier::external_body]
pub(crate) fn base64_decode(engine: Base64Engine, text: &[u8]) -> (r: Option<Vec<u8>>)
    ensures
        match r {
            Some(b) => base64_decoded(engine, text@) == Some(b@),
            None => base64_decoded(engine, text@) is None,
        },
{
    let (alphabet, mode) = match engine {
        Base64Engine::Standard => (&STANDARD, DecodePaddingMode::Indifferent),
        Base64Engine::UrlSafe => (&URL_SAFE, DecodePaddingMode::RequireNone),
    };
    let config = GeneralPurposeConfig::new().with_encode_padding(false).with_decode_padding_mode(mode);
    GeneralPurpose::new(alphabet, config).decode(text).ok()
}

/// Calls `base64::Engine::encode` on the `GeneralPurpose` engine that
/// `engine` stands for: a string of ASCII characters, which the same
/// engine decodes back to `bytes`. (The length of the result must not
/// overflow, which the `requires` rules out.)
#[verifier::external_body]
pub(crate) fn base64_encode(engine: Base64Engine, bytes: &[u8]) -> (r: String)
    requires
        bytes@.len() <= usize::MAX / 2,
    ensures
        r@ == base64_encoded(engine, bytes@),
        all_ascii(r@),
        base64_decoded(engine, ascii_bytes(r@)) == Some(bytes@),
{
    let (alphabet, mode) = match engine {
        Base64Engine::Standard => (&STANDARD, DecodePaddingMode::Indifferent),
        Base64Engine::UrlSafe => (&URL_SAFE, DecodePaddingMode::RequireNone),
    };
    let config = GeneralPurposeConfig::new().with_encode_padding(false).with_decode_padding_mode(mode);
    GeneralPurpose::new(alphabet, config).encode(bytes)
}

} // verus!
