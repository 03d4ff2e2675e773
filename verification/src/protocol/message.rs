//! Messages, game options and requests.
use crate::codec::{is_suffix, lemma_suffix_refl, put_u8, try_get_u8};
use crate::game::{Player, Stone};
use vstd::prelude::*;

verus! {

/// A passcode hash.
pub type PasscodeHash = i64;

/// Trait for types that can be encoded to and decoded from a buffer.
pub trait Message: Sized {
    /// Whether the message can be encoded.
    spec fn encodable(&self) -> bool;

    /// The bytes of the message.
    spec fn wire(&self) -> Seq<u8>;

    /// Whether decoding `s` gives `r` and leaves `rest`.
    spec fn decodes(s: Seq<u8>, r: Option<Self>, rest: Seq<u8>) -> bool;

    /// Encodes the message to a buffer.
    fn encode(self, buf: &mut Vec<u8>)
        requires
            self.encodable(),
        ensures
            final(buf)@ == old(buf)@ + self.wire(),
    ;

    /// Encodes the message to a new buffer.
    fn encode_to_vec(self) -> (r: Vec<u8>)
        requires
            self.encodable(),
        ensures
            r@ == self.wire(),
    {
        let ghost w = self.wire();
        let mut buf = Vec::new();
        self.encode(&mut buf);
        assert(buf@ =~= w);
        buf
    }

    /// Decodes a message from a buffer.
    fn decode(buf: &mut &[u8]) -> (r: Option<Self>)
        ensures
            Self::decodes(old(buf)@, r, final(buf)@),
    ;
}

/// Game options.
#[derive(Clone, Copy, Debug, Default, Eq, PartialEq, Structural)]
pub struct GameOptions {
    /// Whether the stones are swapped.
    pub swapped: bool,
}

/// The stone a player takes when the stones are not swapped: black for the
/// host, white for the guest.
pub open spec fn base_stone(player: Player) -> Stone {
    match player {
        Player::Host => Stone::Black,
        Player::Guest => Stone::White,
    }
}

/// The byte of game options.
pub open spec fn options_byte(o: GameOptions) -> u8 {
    if o.swapped {
        1
    } else {
        0
    }
}

/// Reads game options from the front of `s`: one byte, 0 or 1. Gives the
/// options and the number of bytes consumed.
pub open spec fn options_parse(s: Seq<u8>) -> Option<(GameOptions, nat)> {
    if s.len() == 0 {
        None
    } else if s[0] == 0 {
        Some((GameOptions { swapped: false }, 1))
    } else if s[0] == 1 {
        Some((GameOptions { swapped: true }, 1))
    } else {
        None
    }
}

/// Decoding gives what a parse at the front of `s` gives, and leaves what
/// follows it; on failure it leaves some suffix of `s`.
pub open spec fn parsed<T>(s: Seq<u8>, p: Option<(T, nat)>, r: Option<T>, rest: Seq<u8>) -> bool {
    match p {
        Some((m, k)) => r == Some(m) && k <= s.len() && rest == s.skip(k as int),
        None => r is None && is_suffix(rest, s),
    }
}

impl GameOptions {
    /// Returns a player's stone given the options.
    pub fn stone_of(self, player: Player) -> (r: Stone)
        ensures
            r == if self.swapped {
                base_stone(player).other()
            } else {
                base_stone(player)
            },
    {
        let orig_stone = match player {
            Player::Host => Stone::Black,
            Player::Guest => Stone::White,
        };
        if self.swapped {
            orig_stone.opposite()
        } else {
            orig_stone
        }
    }
}

impl Message for GameOptions {
    open spec fn encodable(&self) -> bool {
        true
    }

    open spec fn wire(&self) -> Seq<u8> {
        seq![options_byte(*self)]
    }

    open spec fn decodes(s: Seq<u8>, r: Option<Self>, rest: Seq<u8>) -> bool {
        parsed(s, options_parse(s), r, rest)
    }

    fn encode(self, buf: &mut Vec<u8>) {
        let ghost start = buf@;
        put_u8(
            buf,
            if self.swapped {
                1
            } else {
                0
            },
        );
        assert(buf@ =~= start + self.wire());
    }

    fn decode(buf: &mut &[u8]) -> (r: Option<Self>) {
        let ghost s = buf@;
        proof {
            lemma_suffix_refl(s);
        }
        let b = match try_get_u8(buf) {
            Some(b) => b,
            None => return None,
        };
        assert(buf@ =~= s.skip(1));
        match b {
            0 => Some(GameOptions { swapped: false }),
            1 => Some(GameOptions { swapped: true }),
            _ => None,
        }
    }
}

/// A player's request.
#[derive(Clone, Copy, Debug, Eq, PartialEq, Structural)]
pub enum Request {
    /// Ends the game in a draw.
    Draw,
    /// Retracts the previous move.
    Retract,
    /// Resets the game.
    Reset(GameOptions),
}

/// The kind byte of a request: 1 for a draw, 2 for a retraction, 3 for a reset.
pub open spec fn request_kind(r: Request) -> u8 {
    match r {
        Request::Draw => 1,
        Request::Retract => 2,
        Request::Reset(_) => 3,
    }
}

/// The bytes of a request: its kind, then the options of a reset.
pub open spec fn request_bytes(r: Request) -> Seq<u8> {
    match r {
        Request::Reset(o) => seq![3u8, options_byte(o)],
        _ => seq![request_kind(r)],
    }
}

/// Reads a request from the front of `s`. Gives the request and the number
/// of bytes consumed.
pub open spec fn request_parse(s: Seq<u8>) -> Option<(Request, nat)> {
    if s.len() == 0 {
        None
    } else if s[0] == 1 {
        Some((Request::Draw, 1))
    } else if s[0] == 2 {
        Some((Request::Retract, 1))
    } else if s[0] == 3 {
        match options_parse(s.skip(1)) {
            Some((o, k)) => Some((Request::Reset(o), k + 1)),
            None => None,
        }
    } else {
        None
    }
}

impl Message for Request {
    open spec fn encodable(&self) -> bool {
        true
    }

    open spec fn wire(&self) -> Seq<u8> {
        request_bytes(*self)
    }

    open spec fn decodes(s: Seq<u8>, r: Option<Self>, rest: Seq<u8>) -> bool {
        parsed(s, request_parse(s), r, rest)
    }

    fn encode(self, buf: &mut Vec<u8>) {
        let ghost start = buf@;
        match self {
            Request::Draw => put_u8(buf, 1),
            Request::Retract => put_u8(buf, 2),
            Request::Reset(options) => {
                put_u8(buf, 3);
                options.encode(buf);
            },
        }
        assert(buf@ =~= start + self.wire());
    }

    fn decode(buf: &mut &[u8]) -> (r: Option<Self>) {
        let ghost s = buf@;
        proof {
            lemma_suffix_refl(s);
        }
        let kind = match try_get_u8(buf) {
            Some(b) => b,
            None => return None,
        };
        assert(buf@ =~= s.skip(1));
        match kind {
            1 => Some(Request::Draw),
            2 => Some(Request::Retract),
            3 => {
                let ghost t = buf@;
                let r = match GameOptions::decode(buf) {
                    Some(o) => Some(Request::Reset(o)),
                    None => None,
                };
                proof {
                    assert(is_suffix(buf@, s)) by {
                        assert(buf@ =~= s.skip(s.len() - buf@.len()));
                    }
                    if let Some((o, k)) = options_parse(t) {
                        assert(t.skip(k as int) =~= s.skip(k + 1int));
                    }
                }
                r
            },
            _ => None,
        }
    }
}

/// Game options read back from their byte are the same options, whatever
/// follows.
pub proof fn lemma_options_roundtrip(o: GameOptions, rest: Seq<u8>)
    ensures
        options_parse(o.wire() + rest) == Some((o, 1nat)),
{
}

/// A request read back from its bytes is the same request, whatever follows.
pub proof fn lemma_request_roundtrip(r: Request, rest: Seq<u8>)
    ensures
        request_parse(r.wire() + rest) == Some((r, r.wire().len())),
{
    if let Request::Reset(o) = r {
        assert((r.wire() + rest).skip(1) =~= o.wire() + rest);
    }
}

} // verus!
