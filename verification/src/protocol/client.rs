//! Messages from a client.
use super::game_id::GameId;
use super::message::{
    lemma_options_roundtrip, lemma_request_roundtrip, options_byte, options_parse, parsed, request_bytes,
    request_parse, GameOptions, Message, PasscodeHash, Request,
};
use crate::codec::{
    be64, be64_value, is_suffix, lemma_be64_roundtrip, lemma_suffix_refl, lemma_suffix_trans, lemma_varint_parse_u32_bound,
    lemma_varint_roundtrip_u32, put_u8, try_get_u8, varint_bytes, varint_parse_u32,
};
use crate::ext::{put_i64, try_get_i64};
use crate::game::point::{lemma_index_bound, lemma_point_at, point_at};
use crate::game::{Direction, Point};
use vstd::prelude::*;

verus! {

/// A client message.
#[derive(Clone, Copy, Debug)]
pub enum ClientMessage {
    /// Requests to start a new game.
    Start(GameOptions),
    /// Requests to join an existing game.
    Join(GameId),
    /// Requests to authenticate.
    Authenticate(PasscodeHash),
    /// Requests to place one or two stones.
    Place(Point, Option<Point>),
    /// Requests to pass.
    Pass,
    /// Claims a win.
    ClaimWin(Point, Direction),
    /// Resigns the game.
    Resign,
    /// Makes a request.
    Request(Request),
    /// Accepts the opponent's request.
    AcceptRequest,
    /// Declines the opponent's request.
    DeclineRequest,
}

/// The kind byte of a client message: its place in the list of variants.
pub open spec fn client_kind(m: ClientMessage) -> u8 {
    match m {
        ClientMessage::Start(_) => 0,
        ClientMessage::Join(_) => 1,
        ClientMessage::Authenticate(_) => 2,
        ClientMessage::Place(_, _) => 3,
        ClientMessage::Pass => 4,
        ClientMessage::ClaimWin(_, _) => 5,
        ClientMessage::Resign => 6,
        ClientMessage::Request(_) => 7,
        ClientMessage::AcceptRequest => 8,
        ClientMessage::DeclineRequest => 9,
    }
}

/// The bytes of a point: the varint of its number.
pub open spec fn point_bytes(p: Point) -> Seq<u8> {
    varint_bytes(p.index_spec() as nat)
}

/// Reads a point from the front of `s`. Gives the point and the number of
/// bytes consumed.
pub open spec fn point_parse(s: Seq<u8>) -> Option<(Point, nat)> {
    match varint_parse_u32(s) {
        Some((v, k)) => Some((point_at(v as int), k)),
        None => None,
    }
}

/// The bytes of a client message after its kind.
pub open spec fn client_body(m: ClientMessage) -> Seq<u8> {
    match m {
        ClientMessage::Start(o) => seq![options_byte(o)],
        ClientMessage::Join(id) => be64(id.0),
        ClientMessage::Authenticate(h) => be64(h),
        ClientMessage::Place(p1, p2) => point_bytes(p1) + match p2 {
            Some(q) => point_bytes(q),
            None => Seq::<u8>::empty(),
        },
        ClientMessage::ClaimWin(p, d) => point_bytes(p) + seq![d.value()],
        ClientMessage::Request(r) => request_bytes(r),
        _ => Seq::<u8>::empty(),
    }
}

/// Reads the body of a client message of the given kind from the front of
/// `t`. Gives the message and the number of bytes consumed.
pub open spec fn client_body_parse(kind: u8, t: Seq<u8>) -> Option<(ClientMessage, nat)> {
    if kind == 0 {
        match options_parse(t) {
            Some((o, k)) => Some((ClientMessage::Start(o), k)),
            None => None,
        }
    } else if kind == 1 {
        if t.len() >= 8 {
            Some((ClientMessage::Join(GameId(be64_value(t))), 8))
        } else {
            None
        }
    } else if kind == 2 {
        if t.len() >= 8 {
            Some((ClientMessage::Authenticate(be64_value(t)), 8))
        } else {
            None
        }
    } else if kind == 3 {
        match point_parse(t) {
            Some((p1, k1)) => if t.len() > k1 {
                match point_parse(t.skip(k1 as int)) {
                    Some((p2, k2)) => Some((ClientMessage::Place(p1, Some(p2)), k1 + k2)),
                    None => None,
                }
            } else {
                Some((ClientMessage::Place(p1, None), k1))
            },
            None => None,
        }
    } else if kind == 4 {
        Some((ClientMessage::Pass, 0))
    } else if kind == 5 {
        match point_parse(t) {
            Some((p, k1)) => if t.len() > k1 {
                match Direction::from_value(t[k1 as int]) {
                    Some(d) => Some((ClientMessage::ClaimWin(p, d), k1 + 1)),
                    None => None,
                }
            } else {
                None
            },
            None => None,
        }
    } else if kind == 6 {
        Some((ClientMessage::Resign, 0))
    } else if kind == 7 {
        match request_parse(t) {
            Some((r, k)) => Some((ClientMessage::Request(r), k)),
            None => None,
        }
    } else if kind == 8 {
        Some((ClientMessage::AcceptRequest, 0))
    } else if kind == 9 {
        Some((ClientMessage::DeclineRequest, 0))
    } else {
        None
    }
}

/// Reads a client message that fills all of `s`.
pub open spec fn client_parse(s: Seq<u8>) -> Option<ClientMessage> {
    if s.len() == 0 {
        None
    } else {
        match client_body_parse(s[0], s.skip(1)) {
            Some((m, k)) => if k == s.len() - 1 {
                Some(m)
            } else {
                None
            },
            None => None,
        }
    }
}

impl ClientMessage {
    /// Reads the body of a message of the given kind.
    fn decode_body(kind: u8, buf: &mut &[u8]) -> (r: Option<Self>)
        ensures
            parsed(old(buf)@, client_body_parse(kind, old(buf)@), r, final(buf)@),
    {
        let ghost t = buf@;
        proof {
            lemma_suffix_refl(t);
        }
        if kind == 0 {
            match GameOptions::decode(buf) {
                Some(o) => Some(ClientMessage::Start(o)),
                None => None,
            }
        } else if kind == 1 {
            match try_get_i64(buf) {
                Some(n) => {
                    assert(buf@ =~= t.skip(8));
                    Some(ClientMessage::Join(GameId(n)))
                },
                None => None,
            }
        } else if kind == 2 {
            match try_get_i64(buf) {
                Some(n) => {
                    assert(buf@ =~= t.skip(8));
                    Some(ClientMessage::Authenticate(n))
                },
                None => None,
            }
        } else if kind == 3 {
            let p1 = match Point::decode(buf) {
                Some(p) => p,
                None => return None,
            };
            proof {
                lemma_point_at(p1);
                lemma_varint_parse_u32_bound(t);
            }
            let ghost t2 = buf@;
            let ghost k1 = point_parse(t).unwrap().1;
            assert(t2 == t.skip(k1 as int));
            if buf.len() > 0 {
                let p2 = Point::decode(buf);
                proof {
                    lemma_suffix_trans(buf@, t2, t);
                }
                match p2 {
                    Some(q) => {
                        proof {
                            lemma_point_at(q);
                            lemma_varint_parse_u32_bound(t2);
                            let k2 = point_parse(t2).unwrap().1;
                            assert(t2.skip(k2 as int) =~= t.skip((k1 + k2) as int));
                        }
                        Some(ClientMessage::Place(p1, Some(q)))
                    },
                    None => None,
                }
            } else {
                Some(ClientMessage::Place(p1, None))
            }
        } else if kind == 4 {
            Some(ClientMessage::Pass)
        } else if kind == 5 {
            let p = match Point::decode(buf) {
                Some(p) => p,
                None => return None,
            };
            proof {
                lemma_point_at(p);
                lemma_varint_parse_u32_bound(t);
            }
            let ghost t2 = buf@;
            let ghost k1 = point_parse(t).unwrap().1;
            assert(t2 == t.skip(k1 as int));
            let b = try_get_u8(buf);
            proof {
                assert(is_suffix(buf@, t)) by {
                    assert(buf@ =~= t.skip(t.len() - buf@.len()));
                }
            }
            match b {
                Some(b) => {
                    assert(t2[0] == t[k1 as int]);
                    assert(buf@ =~= t.skip(k1 + 1int));
                    match Direction::from_u8(b) {
                        Some(d) => Some(ClientMessage::ClaimWin(p, d)),
                        None => None,
                    }
                },
                None => None,
            }
        } else if kind == 6 {
            Some(ClientMessage::Resign)
        } else if kind == 7 {
            match Request::decode(buf) {
                Some(r) => Some(ClientMessage::Request(r)),
                None => None,
            }
        } else if kind == 8 {
            Some(ClientMessage::AcceptRequest)
        } else if kind == 9 {
            Some(ClientMessage::DeclineRequest)
        } else {
            None
        }
    }
}

impl Message for ClientMessage {
    open spec fn encodable(&self) -> bool {
        true
    }

    open spec fn wire(&self) -> Seq<u8> {
        seq![client_kind(*self)] + client_body(*self)
    }

    open spec fn decodes(s: Seq<u8>, r: Option<Self>, rest: Seq<u8>) -> bool {
        &&& r == client_parse(s)
        &&& is_suffix(rest, s)
        &&& r is Some ==> rest.len() == 0
    }

    fn encode(self, buf: &mut Vec<u8>) {
        let ghost start = buf@;
        match self {
            ClientMessage::Start(options) => {
                put_u8(buf, 0);
                options.encode(buf);
            },
            ClientMessage::Join(game_id) => {
                put_u8(buf, 1);
                put_i64(buf, game_id.0);
            },
            ClientMessage::Authenticate(hash) => {
                put_u8(buf, 2);
                put_i64(buf, hash);
            },
            ClientMessage::Place(p1, p2) => {
                put_u8(buf, 3);
                p1.encode(buf);
                if let Some(p2) = p2 {
                    p2.encode(buf);
                }
            },
            ClientMessage::Pass => put_u8(buf, 4),
            ClientMessage::ClaimWin(p, dir) => {
                put_u8(buf, 5);
                p.encode(buf);
                put_u8(buf, dir.as_u8());
            },
            ClientMessage::Resign => put_u8(buf, 6),
            ClientMessage::Request(req) => {
                put_u8(buf, 7);
                req.encode(buf);
            },
            ClientMessage::AcceptRequest => put_u8(buf, 8),
            ClientMessage::DeclineRequest => put_u8(buf, 9),
        }
        assert(buf@ =~= start + self.wire());
    }

    fn decode(buf: &mut &[u8]) -> (r: Option<Self>) {
        let ghost s = buf@;
        proof {
            lemma_suffix_refl(s);
        }
        let kind = match try_get_u8(buf) {
            Some(b) => b,
            None => return None,
        };
        let ghost t = buf@;
        assert(t =~= s.skip(1));
        let msg = Self::decode_body(kind, buf);
        proof {
            assert(is_suffix(t, s)) by {
                assert(t =~= s.skip(s.len() - t.len()));
            }
            lemma_suffix_trans(buf@, t, s);
        }
        match msg {
            Some(m) => {
                if buf.len() != 0 {
                    return None;
                }
                Some(m)
            },
            None => None,
        }
    }
}

/// A client message read back from its bytes is the same message.
pub proof fn lemma_client_roundtrip(m: ClientMessage)
    ensures
        client_parse(m.wire()) == Some(m),
{
    let s = m.wire();
    let t = s.skip(1);
    assert(t =~= client_body(m));
    match m {
        ClientMessage::Start(o) => {
            lemma_options_roundtrip(o, Seq::<u8>::empty());
            assert(o.wire() + Seq::<u8>::empty() =~= t);
        },
        ClientMessage::Join(id) => {
            lemma_be64_roundtrip(id.0, Seq::<u8>::empty());
            assert(be64(id.0) + Seq::<u8>::empty() =~= t);
        },
        ClientMessage::Authenticate(h) => {
            lemma_be64_roundtrip(h, Seq::<u8>::empty());
            assert(be64(h) + Seq::<u8>::empty() =~= t);
        },
        ClientMessage::Place(p1, p2) => {
            lemma_index_bound(p1);
            lemma_point_at(p1);
            match p2 {
                Some(q) => {
                    lemma_index_bound(q);
                    lemma_point_at(q);
                    lemma_varint_roundtrip_u32(p1.index_spec() as u32, point_bytes(q));
                    lemma_varint_roundtrip_u32(q.index_spec() as u32, Seq::<u8>::empty());
                    assert(t.skip(point_bytes(p1).len() as int) =~= point_bytes(q)
                        + Seq::<u8>::empty());
                },
                None => {
                    lemma_varint_roundtrip_u32(p1.index_spec() as u32, Seq::<u8>::empty());
                    assert(t =~= point_bytes(p1) + Seq::<u8>::empty());
                },
            }
        },
        ClientMessage::ClaimWin(p, d) => {
            lemma_index_bound(p);
            lemma_point_at(p);
            lemma_varint_roundtrip_u32(p.index_spec() as u32, seq![d.value()]);
            crate::game::plain::lemma_direction_value(d);
        },
        ClientMessage::Request(r) => {
            lemma_request_roundtrip(r, Seq::<u8>::empty());
            assert(r.wire() + Seq::<u8>::empty() =~= t);
        },
        _ => {},
    }
}

/// A client message with one more byte after it does not read back, but
/// for a one-stone placement, whose bytes can go on with a second stone.
pub proof fn lemma_client_extra_byte(m: ClientMessage, x: u8)
    requires
        !(m matches ClientMessage::Place(_, None)),
    ensures
        client_parse(m.wire().push(x)) is None,
{
    let s = m.wire().push(x);
    let t = s.skip(1);
    assert(t =~= client_body(m) + seq![x]);
    match m {
        ClientMessage::Start(o) => {
            lemma_options_roundtrip(o, seq![x]);
            assert(o.wire() + seq![x] =~= t);
        },
        ClientMessage::Join(id) => {
            lemma_be64_roundtrip(id.0, seq![x]);
        },
        ClientMessage::Authenticate(h) => {
            lemma_be64_roundtrip(h, seq![x]);
        },
        ClientMessage::Place(p1, p2) => {
            lemma_index_bound(p1);
            lemma_point_at(p1);
            match p2 {
                Some(q) => {
                    lemma_index_bound(q);
                    lemma_point_at(q);
                    lemma_varint_roundtrip_u32(p1.index_spec() as u32, point_bytes(q) + seq![x]);
                    assert(t =~= point_bytes(p1) + (point_bytes(q) + seq![x]));
                    lemma_varint_roundtrip_u32(q.index_spec() as u32, seq![x]);
                    assert(t.skip(point_bytes(p1).len() as int) =~= point_bytes(q) + seq![x]);
                },
                None => {},
            }
        },
        ClientMessage::ClaimWin(p, d) => {
            lemma_index_bound(p);
            lemma_point_at(p);
            lemma_varint_roundtrip_u32(p.index_spec() as u32, seq![d.value(), x]);
            assert(t =~= point_bytes(p) + seq![d.value(), x]);
            crate::game::plain::lemma_direction_value(d);
        },
        ClientMessage::Request(r) => {
            lemma_request_roundtrip(r, seq![x]);
            assert(r.wire() + seq![x] =~= t);
        },
        _ => {},
    }
}

} // verus!
