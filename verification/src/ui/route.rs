//! The part of the client's address after `#`: which game it shows, and
//! the text a record is kept in and shared as.
use crate::ext::{
    all_ascii, ascii_bytes, base64_decode, base64_decoded, base64_encode, base64_encoded,
    Base64Engine,
};
use crate::game::format::{record_bytes, record_decode};
use crate::game::roundtrip::lemma_record_roundtrip;
use crate::game::{Record, RecordEncodingScheme};
use crate::protocol::game_id::id_of_base62;
use crate::protocol::GameId;
use vstd::prelude::*;
use vstd::string::{StringExecFns, StringSliceAdditionalSpecFns};

verus! {

/// Where an address leads.
pub enum Route {
    /// No game: the main menu.
    Home,
    /// The offline game kept in the browser's storage.
    Local,
    /// A record to replay.
    Replay(Record),
    /// A record that does not decode.
    BadRecord,
    /// An online game.
    Online(GameId),
    /// Nothing this client knows.
    Invalid,
}

/// `local`: the address of the offline game.
pub open spec fn local_id() -> Seq<u8> {
    seq![0x6cu8, 0x6f, 0x63, 0x61, 0x6c]
}

/// `analyze,`: the prefix of a record in standard base64.
pub open spec fn legacy_prefix() -> Seq<u8> {
    seq![0x61u8, 0x6e, 0x61, 0x6c, 0x79, 0x7a, 0x65, 0x2c]
}

/// `rec,`: the prefix of a record in URL-safe base64.
pub open spec fn record_prefix() -> Seq<u8> {
    seq![0x72u8, 0x65, 0x63, 0x2c]
}

/// Whether `b` starts with `prefix`.
pub open spec fn has_prefix(b: Seq<u8>, prefix: Seq<u8>) -> bool {
    prefix.len() <= b.len() && b.take(prefix.len() as int) == prefix
}

/// Whether `r` is the record that `decoded` (if any) holds, or tells that
/// it holds none.
pub open spec fn replay_spec(decoded: Option<Seq<u8>>, r: Route) -> bool {
    match decoded {
        Some(d) => match record_decode(d) {
            Some((ms, idx)) => r matches Route::Replay(rec) && rec.wf() && rec.all_moves() == ms
                && rec.at() == idx,
            None => r is BadRecord,
        },
        None => r is BadRecord,
    }
}

/// Whether `r` is where the address `b` leads: nowhere when empty, the
/// offline game at `local`, a record after `analyze,` (standard base64) or
/// `rec,` (URL-safe base64), else an online game by its id.
pub open spec fn route_spec(b: Seq<u8>, r: Route) -> bool {
    if b.len() == 0 {
        r is Home
    } else if b == local_id() {
        r is Local
    } else if has_prefix(b, legacy_prefix()) {
        replay_spec(base64_decoded(Base64Engine::Standard, b.skip(8)), r)
    } else if has_prefix(b, record_prefix()) {
        replay_spec(base64_decoded(Base64Engine::UrlSafe, b.skip(4)), r)
    } else {
        match id_of_base62(b) {
            Some(id) => r == Route::Online(id),
            None => r is Invalid,
        }
    }
}

/// Whether `b` starts with `prefix`.
fn starts_with(b: &[u8], prefix: &[u8]) -> (r: bool)
    ensures
        r == has_prefix(b@, prefix@),
{
    if prefix.len() > b.len() {
        return false;
    }
    let mut i: usize = 0;
    while i < prefix.len()
        invariant
            prefix@.len() <= b@.len(),
            i <= prefix@.len(),
            forall|j: int| 0 <= j < i ==> b@[j] == prefix@[j],
        decreases prefix@.len() - i,
    {
        if b[i] != prefix[i] {
            assert(b@.take(prefix@.len() as int)[i as int] != prefix@[i as int]);
            return false;
        }
        i += 1;
    }
    assert(b@.take(prefix@.len() as int) =~= prefix@);
    true
}

/// The bytes after the first `n`.
fn tail(b: &[u8], n: usize) -> (r: &[u8])
    requires
        n <= b@.len(),
    ensures
        r@ == b@.skip(n as int),
{
    let (_, rest) = b.split_at(n);
    assert(rest@ =~= b@.skip(n as int));
    rest
}

/// The record that decoded bytes hold, if they were decoded and hold one.
pub fn replay(decoded: Option<Vec<u8>>) -> (r: Route)
    ensures
        replay_spec(
            match decoded {
                Some(v) => Some(v@),
                None => None,
            },
            r,
        ),
{
    match decoded {
        Some(v) => {
            let mut buf = v.as_slice();
            match Record::decode(&mut buf) {
                Some(rec) => Route::Replay(rec),
                None => Route::BadRecord,
            }
        },
        None => Route::BadRecord,
    }
}

/// Where the address `id` (the part after `#`) leads.
pub fn route(id: &str) -> (r: Route)
    ensures
        route_spec(id.spec_bytes(), r),
{
    let b = id.as_bytes();
    if b.len() == 0 {
        return Route::Home;
    }
    let local: [u8; 5] = [0x6c, 0x6f, 0x63, 0x61, 0x6c];
    let legacy: [u8; 8] = [0x61, 0x6e, 0x61, 0x6c, 0x79, 0x7a, 0x65, 0x2c];
    let rec: [u8; 4] = [0x72, 0x65, 0x63, 0x2c];
    assert(local@ =~= local_id());
    assert(legacy@ =~= legacy_prefix());
    assert(rec@ =~= record_prefix());
    if b.len() == 5 && starts_with(b, local.as_slice()) {
        assert(b@ =~= b@.take(5));
        return Route::Local;
    }
    proof {
        if b@ == local_id() {
            assert(b@.take(5) =~= b@);
        }
    }
    if starts_with(b, legacy.as_slice()) {
        return replay(base64_decode(Base64Engine::Standard, tail(b, 8)));
    }
    if starts_with(b, rec.as_slice()) {
        return replay(base64_decode(Base64Engine::UrlSafe, tail(b, 4)));
    }
    match GameId::from_base62(b) {
        Some(id) => Route::Online(id),
        None => Route::Invalid,
    }
}

/// Whether `r` is the record kept in the text with bytes `b`, if it
/// decodes (standard base64, then the compact format).
pub open spec fn stored_spec(b: Seq<u8>, r: Option<Record>) -> bool {
    match base64_decoded(Base64Engine::Standard, b) {
        Some(d) => match record_decode(d) {
            Some((ms, idx)) => r matches Some(rec) && rec.wf() && rec.all_moves() == ms && rec.at()
                == idx,
            None => r is None,
        },
        None => r is None,
    }
}

/// The scheme an offline game is kept in: all moves, plain.
pub open spec fn local_scheme() -> RecordEncodingScheme {
    RecordEncodingScheme { all: true, delta: false }
}

/// The scheme a record is shared in: the moves in the past, plain.
pub open spec fn export_scheme() -> RecordEncodingScheme {
    RecordEncodingScheme { all: false, delta: false }
}

/// The record kept in the text of the offline game, if it decodes.
pub fn stored_record(text: &str) -> (r: Option<Record>)
    ensures
        stored_spec(text.spec_bytes(), r),
{
    match base64_decode(Base64Engine::Standard, text.as_bytes()) {
        Some(v) => {
            let mut buf = v.as_slice();
            Record::decode(&mut buf)
        },
        None => None,
    }
}

/// The text an offline game is kept in: all its moves and the move index
/// in the compact format, in standard base64. Reading it back gives the
/// same moves and index.
pub fn local_text(record: &Record) -> (r: String)
    requires
        record.wf(),
        record_bytes(record.all_moves(), record.at(), local_scheme()).len() <= usize::MAX / 2,
    ensures
        r@ == base64_encoded(
            Base64Engine::Standard,
            record_bytes(record.all_moves(), record.at(), local_scheme()),
        ),
        all_ascii(r@),
        forall|x: Option<Record>|
            stored_spec(ascii_bytes(r@), x) ==> (x matches Some(rec) && rec.all_moves()
                == record.all_moves() && rec.at() == record.at()),
{
    let bytes = record.encode_to_vec(RecordEncodingScheme::all());
    proof {
        lemma_record_roundtrip(record.all_moves(), record.at(), local_scheme());
    }
    base64_encode(Base64Engine::Standard, bytes.as_slice())
}

/// The address `#rec,` then `enc` leads where the URL-safe base64 `enc`
/// decodes to.
proof fn lemma_prefixed_route(enc: Seq<char>, link: Seq<char>)
    requires
        link == seq!['#', 'r', 'e', 'c', ','] + enc,
    ensures
        forall|x: Route|
            route_spec(ascii_bytes(link.drop_first()), x) == replay_spec(
                base64_decoded(Base64Engine::UrlSafe, ascii_bytes(enc)),
                x,
            ),
{
    let id = ascii_bytes(link.drop_first());
    assert(link.drop_first() =~= seq!['r', 'e', 'c', ','] + enc);
    assert(id.skip(4) =~= ascii_bytes(enc));
    assert(id.take(4) =~= record_prefix());
    assert(id[0] == 0x72u8);
    assert(!has_prefix(id, legacy_prefix()));
    assert(id != local_id());
}

/// `#rec,` then ASCII characters is ASCII.
proof fn lemma_prefixed_ascii(enc: Seq<char>, link: Seq<char>)
    requires
        link == seq!['#', 'r', 'e', 'c', ','] + enc,
        all_ascii(enc),
    ensures
        all_ascii(link),
{
    assert forall|i: int| 0 <= i < link.len() implies (#[trigger] link[i] as u32) < 128 by {
        if i >= 5 {
            assert(link[i] == enc[i - 5]);
        }
    }
}

/// The bytes that share a record decode to a replay of its past.
proof fn lemma_export_replay(record: Record, x: Route)
    requires
        record.wf(),
        replay_spec(Some(record_bytes(record.all_moves(), record.at(), export_scheme())), x),
    ensures
        x matches Route::Replay(rec) && rec.all_moves() == record.past() && rec.at() == record.at(),
{
    lemma_record_roundtrip(record.all_moves(), record.at(), export_scheme());
}

/// The address a record is shared at: `#rec,` and the moves in its past
/// in the compact format, in URL-safe base64. The address leads to a
/// replay of the same moves.
pub fn export_link(record: &Record) -> (r: String)
    requires
        record.wf(),
        record_bytes(record.all_moves(), record.at(), export_scheme()).len() <= usize::MAX / 2,
    ensures
        r@ == seq!['#', 'r', 'e', 'c', ','] + base64_encoded(
            Base64Engine::UrlSafe,
            record_bytes(record.all_moves(), record.at(), export_scheme()),
        ),
        all_ascii(r@),
        forall|x: Route|
            route_spec(ascii_bytes(r@.drop_first()), x) ==> (x matches Route::Replay(rec)
                && rec.all_moves() == record.past() && rec.at() == record.at()),
{
    let bytes = record.encode_to_vec(RecordEncodingScheme::past());
    let ghost b = bytes@;
    let enc = base64_encode(Base64Engine::UrlSafe, bytes.as_slice());
    let mut link = "#rec,".to_owned();
    proof {
        reveal_strlit("#rec,");
    }
    link.append(enc.as_str());
    proof {
        assert(link@ =~= seq!['#', 'r', 'e', 'c', ','] + enc@);
        lemma_prefixed_ascii(enc@, link@);
        lemma_prefixed_route(enc@, link@);
        assert forall|x: Route| route_spec(ascii_bytes(link@.drop_first()), x) implies (
        x matches Route::Replay(rec) && rec.all_moves() == record.past() && rec.at()
            == record.at()) by {
            lemma_export_replay(*record, x);
        }
    }
    link
}

} // verus!
