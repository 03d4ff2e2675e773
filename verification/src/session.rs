//! The state of a game on the server and what each message from a player
//! does to it: the players' passcode hashes, their pending requests, the
//! options and the record, and the messages to send to every subscriber.
use crate::game::record::{ended, legal, turn_spec};
use crate::game::{Move, Player, PlayerSlots, Record, Stone};
use crate::game::format::record_decode;
use crate::protocol::message::{base_stone, options_parse, request_parse, Message};
use crate::protocol::{ClientMessage, GameOptions, PasscodeHash, Request, ServerMessage};
use vstd::prelude::*;

verus! {

/// What a player's message asks to be done to the game.
pub enum Action {
    /// Make a move.
    Move(Move),
    /// Retract the previous move.
    Retract,
    /// Reset the game with the given options.
    Reset(GameOptions),
}

/// The state of a game.
pub struct GameState {
    /// The game options.
    pub options: GameOptions,
    /// The passcode hash of each player, once they authenticated.
    pub passcode_hashes: PlayerSlots<Option<PasscodeHash>>,
    /// The pending request of each player.
    pub requests: PlayerSlots<Option<Request>>,
    /// The game record.
    pub record: Record,
}

/// The stone a player plays under the given options.
pub open spec fn stone_spec(options: GameOptions, player: Player) -> Stone {
    if options.swapped {
        base_stone(player).other()
    } else {
        base_stone(player)
    }
}

/// Whether it is the turn of the player with `stone` in the record.
pub open spec fn has_turn(record: Record, stone: Stone) -> bool {
    !ended(record.past()) && turn_spec(record.at() as int) == stone
}

/// What a message from `player` asks to be done: a move on their turn or
/// any time (a winning row, a resignation), or what accepting the
/// opponent's pending request does. Other messages ask none of these.
pub open spec fn requested_action(s: GameState, player: Player, msg: ClientMessage) -> Option<
    Action,
> {
    let stone = stone_spec(s.options, player);
    match msg {
        ClientMessage::Place(p1, p2) => if has_turn(s.record, stone) {
            Some(Action::Move(Move::Place(p1, p2)))
        } else {
            None
        },
        ClientMessage::Pass => if has_turn(s.record, stone) {
            Some(Action::Move(Move::Pass))
        } else {
            None
        },
        ClientMessage::ClaimWin(p, d) => Some(Action::Move(Move::Win(p, d))),
        ClientMessage::Resign => Some(Action::Move(Move::Resign(stone))),
        ClientMessage::AcceptRequest => match s.requests.at(player.other()) {
            Some(Request::Draw) => Some(Action::Move(Move::Draw)),
            Some(Request::Retract) => Some(Action::Retract),
            Some(Request::Reset(o)) => Some(Action::Reset(o)),
            None => None,
        },
        _ => None,
    }
}

/// Whether an action can be done: a move that is legal, or any other.
pub open spec fn action_succeeds(s: GameState, a: Action) -> bool {
    match a {
        Action::Move(m) => legal(s.record.past(), m),
        _ => true,
    }
}

/// Whether a request may be made: the player has none pending, and a
/// retraction needs a move in the past.
pub open spec fn request_allowed(s: GameState, player: Player, req: Request) -> bool {
    s.requests.at(player) is None && !(req == Request::Retract && s.record.at() == 0)
}

/// Whether two states hold the same options, passcode hashes, requests,
/// and record (stones, moves and move index).
pub open spec fn same_state(a: GameState, b: GameState) -> bool {
    &&& a.options == b.options
    &&& a.passcode_hashes == b.passcode_hashes
    &&& a.requests == b.requests
    &&& a.record@ == b.record@
}

/// The number of messages that close a successful action: one accepting
/// the request it answered, if it did.
pub open spec fn accept_tail(msg: ClientMessage) -> int {
    if msg is AcceptRequest {
        1
    } else {
        0
    }
}

/// The stored column of a game that did not decode.
#[derive(Clone, Copy, Debug, Eq, PartialEq, Structural)]
pub enum StoredError {
    /// The options.
    Options,
    /// A player's request.
    Request,
    /// The record.
    Record,
}

/// The request a stored column (if any) holds: `Some(None)` for none,
/// `None` where it does not decode.
pub open spec fn stored_request(col: Option<Seq<u8>>) -> Option<Option<Request>> {
    match col {
        Some(b) => match request_parse(b) {
            Some((req, _)) => Some(Some(req)),
            None => None,
        },
        None => Some(None),
    }
}

impl GameState {
    /// The record in the state is well formed.
    pub open spec fn wf(&self) -> bool {
        self.record.wf()
    }

    /// Rebuilds a game from its stored columns: the options, the passcode
    /// hashes, each player's request (if any) and the record (its past).
    /// Fails with the first column, in that order, that does not decode.
    pub fn from_columns(
        options: &[u8],
        passcode_hashes: PlayerSlots<Option<PasscodeHash>>,
        request_host: Option<&[u8]>,
        request_guest: Option<&[u8]>,
        record: &[u8],
    ) -> (r: Result<GameState, StoredError>)
        ensures
            ({
                let host_col = match request_host {
                    Some(b) => Some(b@),
                    None => None,
                };
                let guest_col = match request_guest {
                    Some(b) => Some(b@),
                    None => None,
                };
                match (options_parse(options@), stored_request(host_col), stored_request(guest_col), record_decode(record@)) {
                    (None, _, _, _) => r == Err::<GameState, StoredError>(StoredError::Options),
                    (Some(_), None, _, _) => r == Err::<GameState, StoredError>(StoredError::Request),
                    (Some(_), Some(_), None, _) => r == Err::<GameState, StoredError>(StoredError::Request),
                    (Some(_), Some(_), Some(_), None) => r == Err::<GameState, StoredError>(StoredError::Record),
                    (Some((o, _)), Some(h), Some(g), Some((ms, idx))) => r matches Ok(s) && s.wf()
                        && s.options == o && s.passcode_hashes == passcode_hashes
                        && s.requests.host == h && s.requests.guest == g
                        && s.record.all_moves() == ms && s.record.at() == idx,
                }
            }),
    {
        let mut buf = options;
        let options = match GameOptions::decode(&mut buf) {
            Some(o) => o,
            None => return Err(StoredError::Options),
        };
        let host = match decode_stored_request(request_host) {
            Some(req) => req,
            None => return Err(StoredError::Request),
        };
        let guest = match decode_stored_request(request_guest) {
            Some(req) => req,
            None => return Err(StoredError::Request),
        };
        let mut buf = record;
        let record = match Record::decode(&mut buf) {
            Some(rec) => rec,
            None => return Err(StoredError::Record),
        };
        Ok(GameState { options, passcode_hashes, requests: PlayerSlots { host, guest }, record })
    }

    /// Creates the state of a new game with the given options.
    pub fn new(options: GameOptions) -> (r: Self)
        ensures
            r.wf(),
            r.options == options,
            r.passcode_hashes.host is None && r.passcode_hashes.guest is None,
            r.requests.host is None && r.requests.guest is None,
            r.record.all_moves() == Seq::<Move>::empty(),
            r.record.at() == 0,
    {
        GameState {
            options,
            passcode_hashes: PlayerSlots::filled(None),
            requests: PlayerSlots::filled(None),
            record: Record::new(),
        }
    }

    /// The messages a new subscriber gets first: the options, the record,
    /// and the pending requests, the host's first.
    pub fn init_messages(&self) -> (r: Vec<ServerMessage>)
        requires
            self.wf(),
        ensures
            r@.len() == 2 + (if self.requests.host is Some {
                1int
            } else {
                0int
            }) + (if self.requests.guest is Some {
                1int
            } else {
                0int
            }),
            r@[0] == ServerMessage::Options(self.options),
            r@[1] matches ServerMessage::Record(rec) && rec@ == self.record@,
            self.requests.host matches Some(req) ==> r@[2] == ServerMessage::Request(
                Player::Host,
                req,
            ),
            self.requests.guest matches Some(req) ==> r@[r@.len() - 1] == ServerMessage::Request(
                Player::Guest,
                req,
            ),
    {
        let mut msgs: Vec<ServerMessage> = Vec::new();
        msgs.push(ServerMessage::Options(self.options));
        msgs.push(ServerMessage::Record(Box::new(self.record.clone())));
        if let Some(req) = self.requests.host {
            msgs.push(ServerMessage::Request(Player::Host, req));
        }
        if let Some(req) = self.requests.guest {
            msgs.push(ServerMessage::Request(Player::Guest, req));
        }
        msgs
    }

    /// Authenticates a player by the hash of their passcode: the first
    /// hash seen becomes the host's, the next different one the guest's,
    /// and a later hash must match one of them.
    ///
    /// Returns the player, or `None` if the hash matches neither.
    pub fn authenticate(&mut self, hash: PasscodeHash) -> (r: Option<Player>)
        ensures
            final(self).options == old(self).options,
            final(self).requests == old(self).requests,
            final(self).record == old(self).record,
            old(self).passcode_hashes.host is None ==> r == Some(Player::Host)
                && final(self).passcode_hashes.host == Some(hash)
                && final(self).passcode_hashes.guest == old(self).passcode_hashes.guest,
            old(self).passcode_hashes.host == Some(hash) ==> r == Some(Player::Host)
                && final(self).passcode_hashes == old(self).passcode_hashes,
            old(self).passcode_hashes.host is Some && old(self).passcode_hashes.host != Some(hash)
                ==> match old(self).passcode_hashes.guest {
                None => r == Some(Player::Guest) && final(self).passcode_hashes.guest == Some(
                    hash,
                ) && final(self).passcode_hashes.host == old(self).passcode_hashes.host,
                Some(g) => final(self).passcode_hashes == old(self).passcode_hashes && r == (if g
                    == hash {
                    Some(Player::Guest)
                } else {
                    None
                }),
            },
            old(self).passcode_hashes.host is Some ==> final(self).passcode_hashes.host == old(
                self,
            ).passcode_hashes.host,
            old(self).passcode_hashes.guest is Some ==> final(self).passcode_hashes.guest == old(
                self,
            ).passcode_hashes.guest,
    {
        match self.passcode_hashes.host {
            Some(hash_host) => {
                if hash == hash_host {
                    Some(Player::Host)
                } else {
                    match self.passcode_hashes.guest {
                        Some(hash_guest) => {
                            if hash == hash_guest {
                                Some(Player::Guest)
                            } else {
                                None
                            }
                        },
                        None => {
                            self.passcode_hashes.guest = Some(hash);
                            Some(Player::Guest)
                        },
                    }
                }
            },
            None => {
                self.passcode_hashes.host = Some(hash);
                Some(Player::Host)
            },
        }
    }

    /// Plays the game by the action a message from `player` describes, and
    /// returns the messages to send to every subscriber, in order.
    ///
    /// A move needs the player's turn (a winning row and a resignation do
    /// not) and must be legal; a request is kept until it is answered; any
    /// action done clears both players' requests.
    pub fn play(&mut self, player: Player, msg: ClientMessage) -> (out: Vec<ServerMessage>)
        requires
            old(self).wf(),
        ensures
            final(self).wf(),
            final(self).passcode_hashes == old(self).passcode_hashes,
            match msg {
                ClientMessage::Start(_) | ClientMessage::Join(_) | ClientMessage::Authenticate(_) => {
                    same_state(*final(self), *old(self)) && out@.len() == 0
                },
                ClientMessage::Request(req) => if request_allowed(*old(self), player, req) {
                    &&& final(self).requests.at(player) == Some(req)
                    &&& final(self).requests.at(player.other()) == old(self).requests.at(
                        player.other(),
                    )
                    &&& final(self).options == old(self).options
                    &&& final(self).record@ == old(self).record@
                    &&& out@ == seq![ServerMessage::Request(player, req)]
                } else {
                    same_state(*final(self), *old(self)) && out@.len() == 0
                },
                ClientMessage::DeclineRequest => {
                    &&& final(self).requests.at(player.other()) is None
                    &&& final(self).requests.at(player) == old(self).requests.at(player)
                    &&& final(self).options == old(self).options
                    &&& final(self).record@ == old(self).record@
                    &&& out@ == if old(self).requests.at(player.other()) is Some {
                        seq![ServerMessage::DeclineRequest(player)]
                    } else {
                        Seq::<ServerMessage>::empty()
                    }
                },
                _ => match requested_action(*old(self), player, msg) {
                    Some(a) => if action_succeeds(*old(self), a) {
                        &&& final(self).requests.host is None
                        &&& final(self).requests.guest is None
                        &&& msg is AcceptRequest ==> out@.last() == ServerMessage::AcceptRequest(
                            player,
                        )
                        &&& match a {
                            Action::Move(m) => {
                                &&& final(self).options == old(self).options
                                &&& final(self).record.all_moves() == old(self).record.past().push(m)
                                &&& final(self).record.at() == old(self).record.at() + 1
                                &&& out@.len() == 1 + accept_tail(msg)
                                &&& out@[0] == ServerMessage::Move(m)
                            },
                            Action::Retract => {
                                &&& final(self).options == old(self).options
                                &&& final(self).record.all_moves() == old(self).record.all_moves()
                                &&& final(self).record.at() == if old(self).record.at() > 0 {
                                    old(self).record.at() - 1
                                } else {
                                    0
                                }
                                &&& out@.len() == 1 + accept_tail(msg)
                                &&& out@[0] == ServerMessage::Retract
                            },
                            Action::Reset(o) => {
                                &&& final(self).options == o
                                &&& final(self).record.all_moves() == old(self).record.all_moves()
                                &&& final(self).record.at() == 0
                                &&& out@.len() == 2 + accept_tail(msg)
                                &&& out@[0] == ServerMessage::Options(o)
                                &&& out@[1] matches ServerMessage::Record(rec) && rec.wf()
                                    && rec.all_moves() == Seq::<Move>::empty() && rec.at() == 0
                            },
                        }
                    } else {
                        same_state(*final(self), *old(self)) && out@.len() == 0
                    },
                    None => same_state(*final(self), *old(self)) && out@.len() == 0,
                },
            },
    {
        let stone = self.options.stone_of(player);
        let mut out: Vec<ServerMessage> = Vec::new();
        let action = match msg {
            ClientMessage::Start(_) | ClientMessage::Join(_) | ClientMessage::Authenticate(_) => {
                return out;
            },
            ClientMessage::Place(p1, p2) => {
                if !self.has_turn(stone) {
                    return out;
                }
                Action::Move(Move::Place(p1, p2))
            },
            ClientMessage::Pass => {
                if !self.has_turn(stone) {
                    return out;
                }
                Action::Move(Move::Pass)
            },
            ClientMessage::ClaimWin(p, dir) => Action::Move(Move::Win(p, dir)),
            ClientMessage::Resign => Action::Move(Move::Resign(stone)),
            ClientMessage::Request(req) => {
                if self.requests.get(player).is_some() {
                    return out;
                }
                if req == Request::Retract && !self.record.has_past() {
                    return out;
                }
                self.requests.set(player, Some(req));
                out.push(ServerMessage::Request(player, req));
                return out;
            },
            ClientMessage::AcceptRequest => match self.requests.get(player.opposite()) {
                Some(Request::Draw) => Action::Move(Move::Draw),
                Some(Request::Retract) => Action::Retract,
                Some(Request::Reset(options)) => Action::Reset(options),
                None => return out,
            },
            ClientMessage::DeclineRequest => {
                let opponent = player.opposite();
                let had = self.requests.get(opponent).is_some();
                self.requests.set(opponent, None);
                if had {
                    out.push(ServerMessage::DeclineRequest(player));
                }
                return out;
            },
        };
        match action {
            Action::Move(mov) => {
                if !self.record.make_move(mov) {
                    return out;
                }
                out.push(ServerMessage::Move(mov));
            },
            Action::Retract => {
                self.record.undo_move();
                out.push(ServerMessage::Retract);
            },
            Action::Reset(options) => {
                self.options = options;
                self.record.jump(0);
                out.push(ServerMessage::Options(options));
                out.push(ServerMessage::Record(Box::new(Record::new())));
            },
        }
        self.requests.fill(None);
        if let ClientMessage::AcceptRequest = msg {
            out.push(ServerMessage::AcceptRequest(player));
        }
        out
    }

    /// Tests whether it is the turn of the player with `stone`.
    fn has_turn(&self, stone: Stone) -> (r: bool)
        requires
            self.wf(),
        ensures
            r == has_turn(self.record, stone),
    {
        match self.record.turn() {
            Some(s) => s == stone,
            None => false,
        }
    }
}

/// Decodes the request a stored column (if any) holds.
fn decode_stored_request(col: Option<&[u8]>) -> (r: Option<Option<Request>>)
    ensures
        r == stored_request(
            match col {
                Some(b) => Some(b@),
                None => None,
            },
        ),
{
    match col {
        Some(b) => {
            let mut buf = b;
            match Request::decode(&mut buf) {
                Some(req) => Some(Some(req)),
                None => None,
            }
        },
        None => Some(None),
    }
}

} // verus!
