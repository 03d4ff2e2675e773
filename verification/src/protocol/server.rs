//! Messages from the server.
use super::game_id::GameId;
use super::message::{
    lemma_options_roundtrip, lemma_request_roundtrip, options_byte, options_parse, parsed, request_bytes,
    request_parse, GameOptions, Message, Request,
};
use crate::codec::{
    be64, be64_value, is_suffix, lemma_be64_roundtrip, lemma_suffix_refl, lemma_suffix_trans, put_u8,
    try_get_u8,
};
use crate::ext::{put_i64, try_get_i64};
use crate::game::format::{record_bytes, record_decode};
use crate::game::plain::{encodable, lemma_move_parse_consumes, lemma_move_roundtrip, move_bytes, move_parse};
use crate::game::roundtrip::lemma_plain_record_roundtrip;
use crate::game::{Move, Player, Record, RecordEncodingScheme};
use vstd::prelude::*;

verus! {

/// A server message.
#[derive(Clone)]
pub enum ServerMessage {
    /// A new game was started.
    Started(GameId),
    /// The user was authenticated.
    Authenticated(Player),
    /// The game options were updated.
    Options(GameOptions),
    /// The entire record was updated.
    Record(Box<Record>),
    /// A move was made.
    Move(Move),
    /// The previous move was retracted.
    Retract,
    /// A player made a request.
    Request(Player, Request),
    /// A player accepted the opponent's request.
    AcceptRequest(Player),
    /// A player declined the opponent's request.
    DeclineRequest(Player),
}

/// The scheme a record is sent in: the moves in the past, plain.
pub open spec fn past_scheme() -> RecordEncodingScheme {
    RecordEncodingScheme { all: false, delta: false }
}

/// The kind byte of a server message: its place in the list of variants.
pub open spec fn server_kind(m: ServerMessage) -> u8 {
    match m {
        ServerMessage::Started(_) => 0,
        ServerMessage::Authenticated(_) => 1,
        ServerMessage::Options(_) => 2,
        ServerMessage::Record(_) => 3,
        ServerMessage::Move(_) => 4,
        ServerMessage::Retract => 5,
        ServerMessage::Request(_, _) => 6,
        ServerMessage::AcceptRequest(_) => 7,
        ServerMessage::DeclineRequest(_) => 8,
    }
}

/// The bytes of a server message after its kind.
pub open spec fn server_body(m: ServerMessage) -> Seq<u8> {
    match m {
        ServerMessage::Started(id) => be64(id.0),
        ServerMessage::Authenticated(p) => seq![p.value()],
        ServerMessage::Options(o) => seq![options_byte(o)],
        ServerMessage::Record(rec) => record_bytes(rec.all_moves(), rec.at(), past_scheme()),
        ServerMessage::Move(mov) => move_bytes(mov, false),
        ServerMessage::Retract => Seq::<u8>::empty(),
        ServerMessage::Request(p, r) => seq![p.value()] + request_bytes(r),
        ServerMessage::AcceptRequest(p) => seq![p.value()],
        ServerMessage::DeclineRequest(p) => seq![p.value()],
    }
}

/// The player numbered by the first byte of `t`, if there is one.
pub open spec fn player_parse(t: Seq<u8>) -> Option<Player> {
    if t.len() == 0 {
        None
    } else if t[0] == 0 {
        Some(Player::Host)
    } else if t[0] == 1 {
        Some(Player::Guest)
    } else {
        None
    }
}

/// Reads the body of a server message of the given kind, other than a
/// record, from the front of `t`. Gives the message and the number of
/// bytes consumed.
pub open spec fn server_body_parse(kind: u8, t: Seq<u8>) -> Option<(ServerMessage, nat)> {
    if kind == 0 {
        if t.len() >= 8 {
            Some((ServerMessage::Started(GameId(be64_value(t))), 8))
        } else {
            None
        }
    } else if kind == 1 {
        match player_parse(t) {
            Some(p) => Some((ServerMessage::Authenticated(p), 1)),
            None => None,
        }
    } else if kind == 2 {
        match options_parse(t) {
            Some((o, k)) => Some((ServerMessage::Options(o), k)),
            None => None,
        }
    } else if kind == 4 {
        match move_parse(t, false) {
            Some((m, k)) => Some((ServerMessage::Move(m), k)),
            None => None,
        }
    } else if kind == 5 {
        Some((ServerMessage::Retract, 0))
    } else if kind == 6 {
        match player_parse(t) {
            Some(p) => match request_parse(t.skip(1)) {
                Some((r, k)) => Some((ServerMessage::Request(p, r), k + 1)),
                None => None,
            },
            None => None,
        }
    } else if kind == 7 {
        match player_parse(t) {
            Some(p) => Some((ServerMessage::AcceptRequest(p), 1)),
            None => None,
        }
    } else if kind == 8 {
        match player_parse(t) {
            Some(p) => Some((ServerMessage::DeclineRequest(p), 1)),
            None => None,
        }
    } else {
        None
    }
}

/// Reads a server message other than a record that fills all of `s`.
pub open spec fn server_parse(s: Seq<u8>) -> Option<ServerMessage> {
    if s.len() == 0 {
        None
    } else {
        match server_body_parse(s[0], s.skip(1)) {
            Some((m, k)) => if k == s.len() - 1 {
                Some(m)
            } else {
                None
            },
            None => None,
        }
    }
}

impl ServerMessage {
    /// Reads a player from its byte.
    fn decode_player(buf: &mut &[u8]) -> (r: Option<Player>)
        ensures
            r == player_parse(old(buf)@),
            r is Some ==> final(buf)@ == old(buf)@.skip(1),
            is_suffix(final(buf)@, old(buf)@),
    {
        let ghost t = buf@;
        proof {
            lemma_suffix_refl(t);
        }
        match try_get_u8(buf) {
            Some(b) => {
                assert(buf@ =~= t.skip(1));
                Player::from_u8(b)
            },
            None => None,
        }
    }

    /// Reads the body of a message of the given kind, other than a record.
    fn decode_body(kind: u8, buf: &mut &[u8]) -> (r: Option<Self>)
        requires
            kind != 3,
        ensures
            parsed(old(buf)@, server_body_parse(kind, old(buf)@), r, final(buf)@),
    {
        let ghost t = buf@;
        proof {
            lemma_suffix_refl(t);
        }
        if kind == 0 {
            match try_get_i64(buf) {
                Some(n) => {
                    assert(buf@ =~= t.skip(8));
                    Some(ServerMessage::Started(GameId(n)))
                },
                None => None,
            }
        } else if kind == 1 {
            match Self::decode_player(buf) {
                Some(p) => Some(ServerMessage::Authenticated(p)),
                None => None,
            }
        } else if kind == 2 {
            match GameOptions::decode(buf) {
                Some(o) => Some(ServerMessage::Options(o)),
                None => None,
            }
        } else if kind == 4 {
            proof {
                lemma_move_parse_consumes(t, false);
            }
            match Move::decode(buf, false) {
                Some(m) => Some(ServerMessage::Move(m)),
                None => None,
            }
        } else if kind == 5 {
            Some(ServerMessage::Retract)
        } else if kind == 6 {
            let p = match Self::decode_player(buf) {
                Some(p) => p,
                None => return None,
            };
            let ghost t2 = buf@;
            let r = Request::decode(buf);
            proof {
                lemma_suffix_trans(buf@, t2, t);
                if let Some((req, k)) = request_parse(t2) {
                    assert(t2.skip(k as int) =~= t.skip(k + 1int));
                }
            }
            match r {
                Some(req) => Some(ServerMessage::Request(p, req)),
                None => None,
            }
        } else if kind == 7 {
            match Self::decode_player(buf) {
                Some(p) => Some(ServerMessage::AcceptRequest(p)),
                None => None,
            }
        } else if kind == 8 {
            match Self::decode_player(buf) {
                Some(p) => Some(ServerMessage::DeclineRequest(p)),
                None => None,
            }
        } else {
            None
        }
    }
}

impl Message for ServerMessage {
    open spec fn encodable(&self) -> bool {
        match *self {
            ServerMessage::Record(rec) => rec.wf(),
            ServerMessage::Move(m) => encodable(m),
            _ => true,
        }
    }

    open spec fn wire(&self) -> Seq<u8> {
        seq![server_kind(*self)] + server_body(*self)
    }

    open spec fn decodes(s: Seq<u8>, r: Option<Self>, rest: Seq<u8>) -> bool {
        &&& is_suffix(rest, s)
        &&& r is Some ==> rest.len() == 0
        &&& if s.len() > 0 && s[0] == 3 {
            match record_decode(s.skip(1)) {
                Some((ms, idx)) => r matches Some(ServerMessage::Record(rec)) && rec.wf()
                    && rec.all_moves() == ms && rec.at() == idx,
                None => r is None,
            }
        } else {
            r == server_parse(s)
        }
    }

    fn encode(self, buf: &mut Vec<u8>) {
        let ghost start = buf@;
        match self {
            ServerMessage::Started(id) => {
                put_u8(buf, 0);
                put_i64(buf, id.0);
            },
            ServerMessage::Authenticated(player) => {
                put_u8(buf, 1);
                put_u8(buf, player.as_u8());
            },
            ServerMessage::Options(options) => {
                put_u8(buf, 2);
                options.encode(buf);
            },
            ServerMessage::Record(record) => {
                put_u8(buf, 3);
                record.encode(buf, RecordEncodingScheme::past());
            },
            ServerMessage::Move(mov) => {
                put_u8(buf, 4);
                mov.encode(buf, false);
            },
            ServerMessage::Retract => put_u8(buf, 5),
            ServerMessage::Request(player, req) => {
                put_u8(buf, 6);
                put_u8(buf, player.as_u8());
                req.encode(buf);
            },
            ServerMessage::AcceptRequest(player) => {
                put_u8(buf, 7);
                put_u8(buf, player.as_u8());
            },
            ServerMessage::DeclineRequest(player) => {
                put_u8(buf, 8);
                put_u8(buf, player.as_u8());
            },
        }
        assert(buf@ =~= start + self.wire());
    }

    fn decode(buf: &mut &[u8]) -> (r: Option<Self>) {
        let ghost s = buf@;
        proof {
            lemma_suffix_refl(s);
        }
        let kind = match try_get_u8(buf) {
            Some(b) => b,
            None => return None,
        };
        let ghost t = buf@;
        assert(t =~= s.skip(1));
        assert(is_suffix(t, s)) by {
            assert(t =~= s.skip(s.len() - t.len()));
        }
        let msg = if kind == 3 {
            match Record::decode(buf) {
                Some(rec) => Some(ServerMessage::Record(Box::new(rec))),
                None => None,
            }
        } else {
            Self::decode_body(kind, buf)
        };
        proof {
            lemma_suffix_trans(buf@, t, s);
        }
        match msg {
            Some(m) => {
                if buf.len() != 0 {
                    return None;
                }
                Some(m)
            },
            None => None,
        }
    }
}

/// Whatever decoding the bytes of a server message gives is that message;
/// a record comes back with the moves in its past and its move index.
pub proof fn lemma_server_roundtrip(m: ServerMessage, r: Option<ServerMessage>, rest: Seq<u8>)
    requires
        m.encodable(),
        ServerMessage::decodes(m.wire(), r, rest),
    ensures
        match m {
            ServerMessage::Record(rec) => r matches Some(ServerMessage::Record(rec2)) && rec2.wf()
                && rec2.all_moves() == rec.past() && rec2.at() == rec.at(),
            _ => r == Some(m),
        },
{
    let s = m.wire();
    let t = s.skip(1);
    assert(t =~= server_body(m));
    match m {
        ServerMessage::Started(id) => {
            lemma_be64_roundtrip(id.0, Seq::<u8>::empty());
            assert(be64(id.0) + Seq::<u8>::empty() =~= t);
        },
        ServerMessage::Options(o) => {
            lemma_options_roundtrip(o, Seq::<u8>::empty());
            assert(o.wire() + Seq::<u8>::empty() =~= t);
        },
        ServerMessage::Record(rec) => {
            lemma_plain_record_roundtrip(rec.all_moves(), rec.at(), false);
        },
        ServerMessage::Move(mov) => {
            lemma_move_roundtrip(mov, false, Seq::<u8>::empty());
            assert(move_bytes(mov, false) + Seq::<u8>::empty() =~= t);
        },
        ServerMessage::Request(p, req) => {
            lemma_request_roundtrip(req, Seq::<u8>::empty());
            assert(t.skip(1) =~= req.wire() + Seq::<u8>::empty());
        },
        _ => {},
    }
}

} // verus!
