//! What the client does on the messages of the server and on the player's
//! commands: the state it keeps of a game, and what it shows and sends.
use super::board::{Selection, WinClaim};
use super::route::Route;
use crate::game::record::{legal, turn_spec, ended};
use crate::argon2id::try_hash;
use crate::codec::{le64, le64_value};
use crate::ext::argon2id_digest;
use crate::game::{Direction, Move, Player, PlayerSlots, Point, Record, Stone};
use crate::protocol::message::base_stone;
use crate::protocol::{ClientMessage, GameId, GameOptions, Request, ServerMessage};
use vstd::prelude::*;
use vstd::string::StringExecFns;

verus! {

/// What kind of game the client shows.
#[derive(Clone, Copy, Debug, Eq, PartialEq, Structural)]
pub enum GameKind {
    /// No game yet: the main menu.
    Pending,
    /// An offline game, kept in the browser's storage.
    Local,
    /// A record being replayed.
    Record,
    /// An online game.
    Online(GameId),
}

/// A question the client asks the player to confirm.
#[derive(Debug)]
pub enum Confirm {
    /// Leave the game for the main menu.
    MainMenu,
    /// Place one or two stones.
    Submit(Point, Option<Point>),
    /// Pass, or place only one stone where two may be placed.
    Pass(Option<Point>),
    /// Start claiming a win.
    BeginClaim,
    /// Place the tentative stones (if any), then claim the winning row
    /// from the point in the direction.
    Claim(Vec<Point>, Point, Direction),
    /// Request a draw.
    RequestDraw,
    /// Request to retract the previous move.
    RequestRetract,
    /// The opponent of the player made a request: accept or decline it.
    Requested(Player, Request),
    /// The opponent accepted the player's request.
    RequestAccepted,
    /// The opponent declined the player's request.
    RequestDeclined,
    /// Resign the game (online), or pick the stone that resigns (offline).
    Resign {
        /// Whether the game is online.
        online: bool,
    },
    /// The connection closed for the given reason: connect again?
    ConnClosed(String),
    /// An error occurred.
    Error(String),
}

/// What the client does besides changing its state.
#[derive(Debug)]
pub enum Effect {
    /// Show the id of the game just started in the address.
    ShowGameId(GameId),
    /// Open the game menu, unless it is open.
    ShowGameMenu,
    /// Ask for a passcode.
    ShowAuth,
    /// Offer to reset the game, as the player, from the options.
    ShowReset(Player, GameOptions),
    /// Ask to confirm.
    Confirm(Confirm),
    /// Close all questions to confirm.
    CloseConfirms,
    /// Send a message to the server.
    Send(ClientMessage),
    /// Leave the game for the main menu.
    GoHome,
    /// Connect again with the first message of the last connection.
    Reconnect,
    /// Connect to the server, sending the message first.
    Connect(ClientMessage),
    /// Show the main menu.
    ShowMainMenu,
}

/// The state the client keeps of a game.
pub struct ClientState {
    /// The game record.
    pub record: Record,
    /// The kind of game.
    pub game_kind: GameKind,
    /// The player the user authenticated as, if any.
    pub player: Option<Player>,
    /// The pending request of each player.
    pub requests: PlayerSlots<Option<Request>>,
    /// The game options, once the server sent them.
    pub options: Option<GameOptions>,
}

/// The stone of a player under the given options.
pub open spec fn stone_under(options: GameOptions, player: Player) -> Stone {
    if options.swapped {
        base_stone(player).other()
    } else {
        base_stone(player)
    }
}

/// The stone to play in a record, if the game is not ended.
pub open spec fn turn_of(r: Record) -> Option<Stone> {
    if ended(r.past()) {
        None
    } else {
        Some(turn_spec(r.at() as int))
    }
}

/// What the client shows on a server message, given who the user is, the
/// options and the pending requests before it.
pub open spec fn message_effects(
    player: Option<Player>,
    options: Option<GameOptions>,
    requests: PlayerSlots<Option<Request>>,
    msg: ServerMessage,
) -> Seq<Effect> {
    match msg {
        ServerMessage::Started(id) => seq![Effect::ShowGameId(id)],
        ServerMessage::Authenticated(p) => {
            let menu = if options is Some {
                seq![Effect::ShowGameMenu]
            } else {
                Seq::empty()
            };
            match requests.at(p.other()) {
                Some(req) => menu.push(Effect::Confirm(Confirm::Requested(p, req))),
                None => menu,
            }
        },
        ServerMessage::Options(_) => if player is Some {
            if options is None {
                seq![Effect::ShowGameMenu]
            } else {
                Seq::empty()
            }
        } else {
            seq![Effect::ShowAuth]
        },
        ServerMessage::Request(initiator, req) => match player {
            Some(p) => if p != initiator {
                seq![Effect::Confirm(Confirm::Requested(p, req))]
            } else {
                Seq::empty()
            },
            None => Seq::empty(),
        },
        ServerMessage::AcceptRequest(initiator) => if player == Some(initiator.other()) {
            seq![Effect::Confirm(Confirm::RequestAccepted)]
        } else {
            Seq::empty()
        },
        ServerMessage::DeclineRequest(initiator) => if player == Some(initiator.other()) {
            seq![Effect::Confirm(Confirm::RequestDeclined)]
        } else {
            Seq::empty()
        },
        _ => seq![Effect::CloseConfirms],
    }
}

/// Whether a server message changes the record.
pub open spec fn changes_record(msg: ServerMessage) -> bool {
    msg is Record || msg is Move || msg is Retract
}


/// A command of the player on the board.
#[derive(Clone, Copy, Debug, Eq, PartialEq, Structural)]
pub enum Event {
    /// Open the game menu.
    Menu,
    /// Submit the move picked on the board.
    Submit,
    /// Undo the previous move.
    Undo,
    /// Redo the next move.
    Redo,
    /// Go to the state before the first move.
    Home,
    /// Go to the state after the last move.
    End,
    /// Resign.
    Resign,
    /// Offer or make a draw.
    Draw,
}

/// The moves of a record and its move index after making `m` at index
/// `at`: the moves in the past then `m` if `m` is legal there, else the
/// same.
pub open spec fn after_move(moves: Seq<Move>, at: nat, m: Move) -> (Seq<Move>, nat) {
    if legal(moves.take(at as int), m) {
        (moves.take(at as int).push(m), at + 1)
    } else {
        (moves, at)
    }
}

/// The moves of a record and its move index.
pub open spec fn moves_at(r: Record) -> (Seq<Move>, nat) {
    (r.all_moves(), r.at())
}

/// The move that places the tentative stones, or passes if there are none.
pub open spec fn move_of(t: Seq<Point>) -> Move {
    if t.len() == 0 {
        Move::Pass
    } else {
        Move::Place(
            t[0],
            if t.len() > 1 {
                Some(t[1])
            } else {
                None
            },
        )
    }
}

/// The question an online player is asked on submitting the tentative
/// stones `t` with the win claim `claim`, `has_past` telling whether a
/// move was made before.
pub open spec fn submit_confirm(
    c: Confirm,
    t: Seq<Point>,
    claim: Option<WinClaim>,
    has_past: bool,
) -> bool {
    match claim {
        Some(WinClaim::Ready(p, d)) => c matches Confirm::Claim(v, q, e) && v@ == t && q == p && e
            == d,
        _ => if t.len() == 0 {
            c == Confirm::Pass(None)
        } else if t.len() == 1 {
            if has_past {
                c == Confirm::Pass(Some(t[0]))
            } else {
                c == Confirm::Submit(t[0], None)
            }
        } else {
            c == Confirm::Submit(t[0], Some(t[1]))
        },
    }
}

/// The moves and move index after an offline submission.
pub open spec fn submitted(moves: Seq<Move>, at: nat, t: Seq<Point>, claim: Option<WinClaim>) -> (
    Seq<Move>,
    nat,
) {
    match claim {
        Some(WinClaim::Ready(p, d)) => {
            let placed = if t.len() > 0 {
                after_move(moves, at, move_of(t))
            } else {
                (moves, at)
            };
            after_move(placed.0, placed.1, Move::Win(p, d))
        },
        _ => after_move(moves, at, move_of(t)),
    }
}

/// What the client shows on an event that asks the opponent for `req`
/// (a retraction or a draw): the opponent's pending request of that kind
/// to answer, else the question whether to ask, if the player has none
/// pending.
pub open spec fn request_effects(
    player: Player,
    requests: PlayerSlots<Option<Request>>,
    req: Request,
    ask: Confirm,
) -> Seq<Effect> {
    if requests.at(player.other()) == Some(req) {
        seq![Effect::Confirm(Confirm::Requested(player, req))]
    } else if requests.at(player) is None {
        seq![Effect::Confirm(ask)]
    } else {
        Seq::empty()
    }
}

/// What the client shows on the player's wish to reset the game: the
/// opponent's pending reset to answer, else the reset dialog if the
/// player has no request pending and the options are known.
pub open spec fn reset_effects(
    player: Player,
    requests: PlayerSlots<Option<Request>>,
    options: Option<GameOptions>,
) -> Seq<Effect> {
    match requests.at(player.other()) {
        Some(Request::Reset(o)) => seq![
            Effect::Confirm(Confirm::Requested(player, Request::Reset(o))),
        ],
        _ => match options {
            Some(o) => if requests.at(player) is None {
                seq![Effect::ShowReset(player, o)]
            } else {
                Seq::empty()
            },
            None => Seq::empty(),
        },
    }
}

/// What the player picked in the game menu.
#[derive(Clone, Copy, Debug, Eq, PartialEq, Structural)]
pub enum GameMenuRetVal {
    /// Close the menu.
    Resume,
    /// Leave for the main menu.
    MainMenu,
    /// Authenticate.
    Auth,
    /// Undo, or request a retraction.
    Undo,
    /// Redo.
    Redo,
    /// Go home, or request a reset.
    Home,
    /// Go to the end.
    End,
    /// Start or abandon a win claim.
    ClaimWin,
    /// Resign.
    Resign,
    /// Submit the move.
    Submit,
    /// Offer or make a draw.
    Draw,
}

/// The answer to a question to confirm.
#[derive(Clone, Copy, Debug, Eq, PartialEq, Structural)]
pub enum ConfirmRetVal {
    /// Dismissed.
    Cancel,
    /// Confirmed.
    Confirm,
    /// Confirmed with the other choice.
    AltConfirm,
}

/// The command a game-menu choice stands for, if any.
pub open spec fn menu_event(ret: GameMenuRetVal) -> Option<Event> {
    match ret {
        GameMenuRetVal::Undo => Some(Event::Undo),
        GameMenuRetVal::Redo => Some(Event::Redo),
        GameMenuRetVal::Home => Some(Event::Home),
        GameMenuRetVal::End => Some(Event::End),
        GameMenuRetVal::Resign => Some(Event::Resign),
        GameMenuRetVal::Submit => Some(Event::Submit),
        GameMenuRetVal::Draw => Some(Event::Draw),
        _ => None,
    }
}

/// What the client shows and sends on the answer `ret` to `c`.
pub open spec fn confirm_effects(c: Confirm, ret: ConfirmRetVal) -> Seq<Effect> {
    if ret == ConfirmRetVal::Cancel {
        match c {
            Confirm::ConnClosed(_) | Confirm::Error(_) => seq![Effect::GoHome],
            _ => Seq::empty(),
        }
    } else {
        match c {
            Confirm::MainMenu => seq![Effect::GoHome],
            Confirm::Submit(p1, p2) => seq![Effect::Send(ClientMessage::Place(p1, p2))],
            Confirm::Pass(None) => seq![Effect::Send(ClientMessage::Pass)],
            Confirm::Pass(Some(p)) => seq![Effect::Send(ClientMessage::Place(p, None))],
            Confirm::Claim(v, p, d) => {
                let place = if v@.len() > 0 {
                    seq![Effect::Send(ClientMessage::Place(v@[0], if v@.len() > 1 {
                        Some(v@[1])
                    } else {
                        None
                    }))]
                } else {
                    Seq::empty()
                };
                place.push(Effect::Send(ClientMessage::ClaimWin(p, d)))
            },
            Confirm::RequestDraw => seq![Effect::Send(ClientMessage::Request(Request::Draw))],
            Confirm::RequestRetract => seq![
                Effect::Send(ClientMessage::Request(Request::Retract)),
            ],
            Confirm::Requested(_, _) => if ret == ConfirmRetVal::Confirm {
                seq![Effect::Send(ClientMessage::AcceptRequest)]
            } else {
                seq![Effect::Send(ClientMessage::DeclineRequest)]
            },
            Confirm::Resign { online } => if online {
                seq![Effect::Send(ClientMessage::Resign)]
            } else {
                Seq::empty()
            },
            Confirm::ConnClosed(_) => seq![Effect::Reconnect],
            Confirm::Error(_) => seq![Effect::GoHome],
            _ => Seq::empty(),
        }
    }
}

/// The stone that resigns offline on the answer `ret`: white on a
/// confirmation, black on the other choice.
pub open spec fn resigning(ret: ConfirmRetVal) -> Stone {
    if ret == ConfirmRetVal::Confirm {
        Stone::White
    } else {
        Stone::Black
    }
}

/// What a command of the player does: `before` and `after` are the
/// states around it, `r` what is shown and sent, `t` the tentative stones
/// and `claim` the win claim picked on the board.
pub open spec fn event_outcome(
    before: ClientState,
    after: ClientState,
    r: Seq<Effect>,
    ev: Event,
    online: bool,
    t: Seq<Point>,
    claim: Option<WinClaim>,
) -> bool {
    let old_r = before.record;
    match ev {
        Event::Menu => r == seq![Effect::ShowGameMenu] && after.record@ == old_r@,
        Event::Submit => if online {
            &&& after.record@ == old_r@
            &&& r.len() == 1
            &&& r[0] matches Effect::Confirm(c) && submit_confirm(
                c,
                t,
                claim,
                old_r.at() > 0,
            )
        } else {
            r == Seq::<Effect>::empty() && moves_at(after.record) == submitted(
                old_r.all_moves(),
                old_r.at(),
                t,
                claim,
            )
        },
        Event::Undo => if old_r.at() == 0 {
            r == Seq::<Effect>::empty() && after.record@ == old_r@
        } else if !online {
            r == Seq::<Effect>::empty() && after.record.all_moves()
                == old_r.all_moves() && after.record.at() == old_r.at() - 1
        } else {
            after.record@ == old_r@ && r == match before.player {
                Some(p) => request_effects(
                    p,
                    before.requests,
                    Request::Retract,
                    Confirm::RequestRetract,
                ),
                None => Seq::empty(),
            }
        },
        Event::Redo => r == Seq::<Effect>::empty() && if old_r.at()
            < old_r.all_moves().len() && !online {
            after.record.all_moves() == old_r.all_moves() && after.record.at() == old_r.at() + 1
        } else {
            after.record@ == old_r@
        },
        Event::Home => match before.player {
            Some(p) => after.record@ == old_r@ && r == reset_effects(
                p,
                before.requests,
                before.options,
            ),
            None => r == Seq::<Effect>::empty() && if old_r.at() > 0 {
                after.record.all_moves() == old_r.all_moves() && after.record.at() == 0
            } else {
                after.record@ == old_r@
            },
        },
        Event::End => r == Seq::<Effect>::empty() && if old_r.at()
            < old_r.all_moves().len() && !online {
            after.record.all_moves() == old_r.all_moves() && after.record.at() == old_r.all_moves().len()
        } else {
            after.record@ == old_r@
        },
        Event::Resign => r == seq![Effect::Confirm(Confirm::Resign { online })]
            && after.record@ == old_r@,
        Event::Draw => match before.player {
            Some(p) => after.record@ == old_r@ && r == request_effects(
                p,
                before.requests,
                Request::Draw,
                Confirm::RequestDraw,
            ),
            None => r == Seq::<Effect>::empty() && moves_at(after.record)
                == after_move(old_r.all_moves(), old_r.at(), Move::Draw),
        },
    }
}

/// A copy of the points.
fn copy_points(v: &Vec<Point>) -> (r: Vec<Point>)
    ensures
        r@ == v@,
{
    let mut r: Vec<Point> = Vec::new();
    let mut i: usize = 0;
    while i < v.len()
        invariant
            i <= v@.len(),
            r@ == v@.take(i as int),
        decreases v@.len() - i,
    {
        r.push(v[i]);
        i += 1;
        proof {
            assert(r@ =~= v@.take(i as int));
        }
    }
    assert(v@.take(v@.len() as int) =~= v@);
    r
}

impl ClientState {
    /// The record is well formed.
    pub open spec fn wf(&self) -> bool {
        self.record.wf()
    }

    /// The state before any game: an empty record, no player, no requests,
    /// no options.
    pub fn new() -> (r: Self)
        ensures
            r.wf(),
            r.record.all_moves() == Seq::<Move>::empty(),
            r.record.at() == 0,
            r.game_kind == GameKind::Pending,
            r.player is None,
            r.requests.host is None && r.requests.guest is None,
            r.options is None,
    {
        ClientState {
            record: Record::new(),
            game_kind: GameKind::Pending,
            player: None,
            requests: PlayerSlots::filled(None),
            options: None,
        }
    }

    /// The stone of the user: the one of the player they authenticated as
    /// once the options are known, else the one to play.
    pub fn stone(&self) -> (r: Option<Stone>)
        requires
            self.wf(),
        ensures
            r == match (self.player, self.options) {
                (Some(p), Some(o)) => Some(stone_under(o, p)),
                _ => turn_of(self.record),
            },
    {
        match (self.player, self.options) {
            (Some(p), Some(o)) => Some(o.stone_of(p)),
            _ => self.record.turn(),
        }
    }

    /// Forgets the game: clears the record, the player, the requests and
    /// the options.
    pub fn clear_all(&mut self)
        ensures
            final(self).wf(),
            final(self).record.all_moves() == Seq::<Move>::empty(),
            final(self).record.at() == 0,
            final(self).game_kind == old(self).game_kind,
            final(self).player is None,
            final(self).requests.host is None && final(self).requests.guest is None,
            final(self).options is None,
    {
        self.record.clear();
        self.player = None;
        self.requests.fill(None);
        self.options = None;
    }

    /// Whether two states hold the same kind of game, player, requests
    /// and options.
    pub open spec fn same_but_record(&self, other: &ClientState) -> bool {
        &&& self.game_kind == other.game_kind
        &&& self.player == other.player
        &&& self.requests == other.requests
        &&& self.options == other.options
    }

    /// Handles a command of the player, `online` telling whether the game
    /// is played online, `sel` holding what is picked on the board.
    ///
    /// Offline, moves are made on the record; online, the player is asked
    /// to confirm what is then sent.
    pub fn on_event(&mut self, ev: Event, online: bool, sel: &Selection) -> (r: Vec<Effect>)
        requires
            old(self).wf(),
            sel.tentatives@.len() <= 2,
        ensures
            final(self).wf(),
            final(self).same_but_record(old(self)),
            event_outcome(*old(self), *final(self), r@, ev, online, sel.tentatives@, sel.win_claim),
    {
        let mut effects: Vec<Effect> = Vec::new();
        match ev {
            Event::Menu => effects.push(Effect::ShowGameMenu),
            Event::Submit => {
                let t = &sel.tentatives;
                let n = t.len();
                if online {
                    let c = match sel.win_claim {
                        Some(WinClaim::Ready(p, dir)) => Confirm::Claim(copy_points(t), p, dir),
                        _ => if n == 0 {
                            Confirm::Pass(None)
                        } else if n == 1 {
                            if self.record.has_past() {
                                Confirm::Pass(Some(t[0]))
                            } else {
                                Confirm::Submit(t[0], None)
                            }
                        } else {
                            Confirm::Submit(t[0], Some(t[1]))
                        },
                    };
                    effects.push(Effect::Confirm(c));
                } else {
                    let placing = if n == 0 {
                        Move::Pass
                    } else if n == 1 {
                        Move::Place(t[0], None)
                    } else {
                        Move::Place(t[0], Some(t[1]))
                    };
                    match sel.win_claim {
                        Some(WinClaim::Ready(p, dir)) => {
                            if n > 0 {
                                self.record.make_move(placing);
                            }
                            self.record.make_move(Move::Win(p, dir));
                        },
                        _ => {
                            self.record.make_move(placing);
                        },
                    }
                }
            },
            Event::Undo => {
                if !self.record.has_past() {
                    return effects;
                }
                if !online {
                    self.record.undo_move();
                } else {
                    match self.player {
                        Some(p) => self.push_request_effect(
                            &mut effects,
                            p,
                            Request::Retract,
                            Confirm::RequestRetract,
                        ),
                        None => {},
                    }
                }
            },
            Event::Redo => {
                if !self.record.has_future() {
                    return effects;
                }
                if !online {
                    self.record.redo_move();
                }
            },
            Event::Home => {
                match self.player {
                    Some(p) => {
                        match self.requests.get(p.opposite()) {
                            Some(Request::Reset(o)) => effects.push(
                                Effect::Confirm(Confirm::Requested(p, Request::Reset(o))),
                            ),
                            _ => {
                                if self.requests.get(p).is_none() {
                                    match self.options {
                                        Some(o) => effects.push(Effect::ShowReset(p, o)),
                                        None => {},
                                    }
                                }
                            },
                        }
                    },
                    None => {
                        if !self.record.has_past() {
                            return effects;
                        }
                        self.record.jump(0);
                    },
                }
            },
            Event::End => {
                if !self.record.has_future() {
                    return effects;
                }
                if !online {
                    let len = self.record.moves().len();
                    self.record.jump(len);
                }
            },
            Event::Resign => effects.push(Effect::Confirm(Confirm::Resign { online })),
            Event::Draw => {
                match self.player {
                    Some(p) => self.push_request_effect(
                        &mut effects,
                        p,
                        Request::Draw,
                        Confirm::RequestDraw,
                    ),
                    None => {
                        self.record.make_move(Move::Draw);
                    },
                }
            },
        }
        proof {
            if ev is Submit && !online && !(sel.win_claim matches Some(WinClaim::Ready(_, _))) {
                assert(sel.tentatives@.len() == 2 ==> move_of(sel.tentatives@) == Move::Place(
                    sel.tentatives@[0],
                    Some(sel.tentatives@[1]),
                ));
            }
        }
        effects
    }

    /// Pushes what `request_effects` gives for the player and the request.
    fn push_request_effect(&self, effects: &mut Vec<Effect>, p: Player, req: Request, ask: Confirm)
        requires
            old(effects)@ == Seq::<Effect>::empty(),
        ensures
            final(effects)@ == request_effects(p, self.requests, req, ask),
    {
        if self.requests.get(p.opposite()) == Some(req) {
            effects.push(Effect::Confirm(Confirm::Requested(p, req)));
        } else if self.requests.get(p).is_none() {
            effects.push(Effect::Confirm(ask));
        }
    }

    /// Handles a message from the server: updates the state and returns
    /// what to show.
    pub fn on_message(&mut self, msg: ServerMessage) -> (r: Vec<Effect>)
        requires
            old(self).wf(),
            msg matches ServerMessage::Record(rec) ==> rec.wf(),
        ensures
            final(self).wf(),
            r@ == message_effects(old(self).player, old(self).options, old(self).requests, msg),
            final(self).game_kind == (match msg {
                ServerMessage::Started(id) => GameKind::Online(id),
                _ => old(self).game_kind,
            }),
            final(self).player == (match msg {
                ServerMessage::Authenticated(p) => Some(p),
                _ => old(self).player,
            }),
            final(self).options == (match msg {
                ServerMessage::Options(o) => Some(o),
                _ => old(self).options,
            }),
            changes_record(msg) ==> final(self).requests.host is None
                && final(self).requests.guest is None,
            !changes_record(msg) ==> final(self).requests == (match msg {
                ServerMessage::Request(initiator, req) => PlayerSlots {
                    host: if initiator == Player::Host {
                        Some(req)
                    } else {
                        old(self).requests.host
                    },
                    guest: if initiator == Player::Guest {
                        Some(req)
                    } else {
                        old(self).requests.guest
                    },
                },
                ServerMessage::AcceptRequest(initiator) | ServerMessage::DeclineRequest(initiator) => PlayerSlots {
                    host: if initiator == Player::Guest {
                        None
                    } else {
                        old(self).requests.host
                    },
                    guest: if initiator == Player::Host {
                        None
                    } else {
                        old(self).requests.guest
                    },
                },
                _ => old(self).requests,
            }),
            match msg {
                ServerMessage::Record(rec) => final(self).record@ == rec@,
                ServerMessage::Move(m) => if legal(old(self).record.past(), m) {
                    final(self).record.all_moves() == old(self).record.past().push(m)
                        && final(self).record.at() == old(self).record.at() + 1
                } else {
                    final(self).record@ == old(self).record@
                },
                ServerMessage::Retract => if old(self).record.at() > 0 {
                    final(self).record.all_moves() == old(self).record.past().drop_last()
                        && final(self).record.at() == old(self).record.at() - 1
                } else {
                    final(self).record.all_moves() == old(self).record.past()
                        && final(self).record.at() == 0
                },
                _ => final(self).record@ == old(self).record@,
            },
    {
        let mut effects: Vec<Effect> = Vec::new();
        let mut record_changed = false;
        match msg {
            ServerMessage::Started(id) => {
                effects.push(Effect::ShowGameId(id));
                self.game_kind = GameKind::Online(id);
            },
            ServerMessage::Authenticated(assigned) => {
                self.player = Some(assigned);
                if self.options.is_some() {
                    effects.push(Effect::ShowGameMenu);
                }
                match self.requests.get(assigned.opposite()) {
                    Some(req) => effects.push(Effect::Confirm(Confirm::Requested(assigned, req))),
                    None => {},
                }
            },
            ServerMessage::Options(new_options) => {
                if self.player.is_some() {
                    if self.options.is_none() {
                        effects.push(Effect::ShowGameMenu);
                    }
                } else {
                    effects.push(Effect::ShowAuth);
                }
                self.options = Some(new_options);
            },
            ServerMessage::Record(new_record) => {
                self.record = *new_record;
                record_changed = true;
            },
            ServerMessage::Move(mov) => {
                self.record.make_move(mov);
                record_changed = true;
            },
            ServerMessage::Retract => {
                self.record.undo_move();
                self.record.clear_future();
                record_changed = true;
            },
            ServerMessage::Request(initiator, req) => {
                self.requests.set(initiator, Some(req));
                match self.player {
                    Some(p) => {
                        if p != initiator {
                            effects.push(Effect::Confirm(Confirm::Requested(p, req)));
                        }
                    },
                    None => {},
                }
            },
            ServerMessage::AcceptRequest(initiator) => {
                self.requests.set(initiator.opposite(), None);
                if self.player == Some(initiator.opposite()) {
                    effects.push(Effect::Confirm(Confirm::RequestAccepted));
                }
            },
            ServerMessage::DeclineRequest(initiator) => {
                self.requests.set(initiator.opposite(), None);
                if self.player == Some(initiator.opposite()) {
                    effects.push(Effect::Confirm(Confirm::RequestDeclined));
                }
            },
        }
        if record_changed {
            self.requests.fill(None);
            effects.push(Effect::CloseConfirms);
        }
        proof {
            assert(effects@ =~= message_effects(
                old(self).player,
                old(self).options,
                old(self).requests,
                msg,
            ));
        }
        effects
    }
}

impl ClientState {
    /// Handles a choice in the game menu; `online` tells whether the game
    /// is played online and `sel` holds what is picked on the board.
    pub fn on_game_menu_return(
        &mut self,
        ret: GameMenuRetVal,
        online: bool,
        sel: &mut Selection,
    ) -> (r: Vec<Effect>)
        requires
            old(self).wf(),
            old(sel).tentatives@.len() <= 2,
        ensures
            final(self).wf(),
            final(self).same_but_record(old(self)),
            final(sel).phantom == old(sel).phantom,
            final(sel).tentatives@ == old(sel).tentatives@,
            ret != GameMenuRetVal::ClaimWin ==> final(sel).win_claim == old(sel).win_claim,
            match menu_event(ret) {
                Some(ev) => event_outcome(
                    *old(self),
                    *final(self),
                    r@,
                    ev,
                    online,
                    old(sel).tentatives@,
                    old(sel).win_claim,
                ),
                None => final(self).record@ == old(self).record@ && match ret {
                    GameMenuRetVal::MainMenu => r@ == (if online {
                        seq![Effect::Confirm(Confirm::MainMenu)]
                    } else {
                        seq![Effect::GoHome]
                    }),
                    GameMenuRetVal::Auth => r@ == seq![Effect::ShowAuth],
                    GameMenuRetVal::ClaimWin => if old(sel).win_claim is None {
                        final(sel).win_claim == Some(WinClaim::PendingPoint) && r@ == (if online {
                            seq![Effect::Confirm(Confirm::BeginClaim)]
                        } else {
                            Seq::empty()
                        })
                    } else {
                        final(sel).win_claim is None && r@ == Seq::<Effect>::empty()
                    },
                    _ => r@ == Seq::<Effect>::empty(),
                },
            },
    {
        let mut effects: Vec<Effect> = Vec::new();
        match ret {
            GameMenuRetVal::Resume => {},
            GameMenuRetVal::MainMenu => {
                if online {
                    effects.push(Effect::Confirm(Confirm::MainMenu));
                } else {
                    effects.push(Effect::GoHome);
                }
            },
            GameMenuRetVal::Auth => effects.push(Effect::ShowAuth),
            GameMenuRetVal::Undo => return self.on_event(Event::Undo, online, sel),
            GameMenuRetVal::Redo => return self.on_event(Event::Redo, online, sel),
            GameMenuRetVal::Home => return self.on_event(Event::Home, online, sel),
            GameMenuRetVal::End => return self.on_event(Event::End, online, sel),
            GameMenuRetVal::ClaimWin => {
                if sel.win_claim.is_none() {
                    sel.win_claim = Some(WinClaim::PendingPoint);
                    if online {
                        effects.push(Effect::Confirm(Confirm::BeginClaim));
                    }
                } else {
                    sel.win_claim = None;
                }
            },
            GameMenuRetVal::Resign => return self.on_event(Event::Resign, online, sel),
            GameMenuRetVal::Submit => return self.on_event(Event::Submit, online, sel),
            GameMenuRetVal::Draw => return self.on_event(Event::Draw, online, sel),
        }
        effects
    }

    /// Handles the answer `ret` to the question `c`: what to send, and
    /// offline, the resignation to make.
    pub fn on_confirm(&mut self, c: Confirm, ret: ConfirmRetVal) -> (r: Vec<Effect>)
        requires
            old(self).wf(),
        ensures
            final(self).wf(),
            final(self).same_but_record(old(self)),
            r@ == confirm_effects(c, ret),
            if ret != ConfirmRetVal::Cancel && c == (Confirm::Resign { online: false }) {
                moves_at(final(self).record) == after_move(
                    old(self).record.all_moves(),
                    old(self).record.at(),
                    Move::Resign(resigning(ret)),
                )
            } else {
                final(self).record@ == old(self).record@
            },
    {
        let mut effects: Vec<Effect> = Vec::new();
        let ghost c0 = c;
        match ret {
            ConfirmRetVal::Cancel => {
                match c {
                    Confirm::ConnClosed(_) | Confirm::Error(_) => effects.push(Effect::GoHome),
                    _ => {},
                }
                return effects;
            },
            _ => {},
        }
        match c {
            Confirm::MainMenu => effects.push(Effect::GoHome),
            Confirm::Submit(p1, p2) => effects.push(Effect::Send(ClientMessage::Place(p1, p2))),
            Confirm::Pass(None) => effects.push(Effect::Send(ClientMessage::Pass)),
            Confirm::Pass(Some(p)) => effects.push(Effect::Send(ClientMessage::Place(p, None))),
            Confirm::BeginClaim => {},
            Confirm::Claim(v, p, dir) => {
                if v.len() > 0 {
                    let second = if v.len() > 1 {
                        Some(v[1])
                    } else {
                        None
                    };
                    effects.push(Effect::Send(ClientMessage::Place(v[0], second)));
                }
                effects.push(Effect::Send(ClientMessage::ClaimWin(p, dir)));
            },
            Confirm::RequestDraw => effects.push(
                Effect::Send(ClientMessage::Request(Request::Draw)),
            ),
            Confirm::RequestRetract => effects.push(
                Effect::Send(ClientMessage::Request(Request::Retract)),
            ),
            Confirm::Requested(..) => {
                match ret {
                    ConfirmRetVal::Confirm => effects.push(
                        Effect::Send(ClientMessage::AcceptRequest),
                    ),
                    _ => effects.push(Effect::Send(ClientMessage::DeclineRequest)),
                }
            },
            Confirm::RequestAccepted | Confirm::RequestDeclined => {},
            Confirm::Resign { online } => {
                if online {
                    effects.push(Effect::Send(ClientMessage::Resign));
                } else {
                    let stone = match ret {
                        ConfirmRetVal::Confirm => Stone::White,
                        _ => Stone::Black,
                    };
                    self.record.make_move(Move::Resign(stone));
                }
            },
            Confirm::ConnClosed(_) => effects.push(Effect::Reconnect),
            Confirm::Error(_) => effects.push(Effect::GoHome),
        }
        proof {
            assert(effects@ =~= confirm_effects(c0, ret));
        }
        effects
    }

    /// Handles a passcode submitted to authenticate in an online game: the
    /// passcode hashed with the game id as salt is sent, or an error shown
    /// with the hashing error's text if hashing fails. Other games ignore it.
    pub fn authenticate(&self, passcode: &[u8]) -> (r: Vec<Effect>)
        ensures
            match self.game_kind {
                GameKind::Online(id) => match argon2id_digest(passcode@, le64(id.0)) {
                    Ok(d) => r@ == seq![
                        Effect::Send(ClientMessage::Authenticate(le64_value(d))),
                    ],
                    Err(err) => r@.len() == 1 && (r@[0] matches Effect::Confirm(Confirm::Error(e))
                        && e@ == "Failed to hash passcode: "@ + err),
                },
                _ => r@ == Seq::<Effect>::empty(),
            },
    {
        let mut effects: Vec<Effect> = Vec::new();
        match self.game_kind {
            GameKind::Online(id) => {
                match try_hash(passcode, id.0) {
                    Ok(h) => effects.push(Effect::Send(ClientMessage::Authenticate(h))),
                    Err(err) => {
                        let mut text = "Failed to hash passcode: ".to_owned();
                        text.append(err.as_str());
                        effects.push(Effect::Confirm(Confirm::Error(text)));
                    },
                }
            },
            _ => {},
        }
        effects
    }
}

impl ClientState {
    /// Goes where an address leads, forgetting the game shown before:
    /// `stored` is the offline game kept in the browser's storage, if any.
    pub fn go_to(&mut self, route: Route, stored: Option<Record>) -> (r: Vec<Effect>)
        requires
            route matches Route::Replay(rec) ==> rec.wf(),
            stored matches Some(rec) ==> rec.wf(),
        ensures
            final(self).wf(),
            final(self).player is None,
            final(self).requests.host is None && final(self).requests.guest is None,
            final(self).options is None,
            match route {
                Route::Home => final(self).game_kind == GameKind::Pending && r@ == seq![
                    Effect::ShowMainMenu,
                ] && final(self).record.all_moves() == Seq::<Move>::empty(),
                Route::Local => final(self).game_kind == GameKind::Local && r@ == Seq::<
                    Effect,
                >::empty() && match stored {
                    Some(rec) => final(self).record@ == rec@,
                    None => final(self).record.all_moves() == Seq::<Move>::empty()
                        && final(self).record.at() == 0,
                },
                Route::Replay(rec) => final(self).game_kind == GameKind::Record && r@ == Seq::<
                    Effect,
                >::empty() && final(self).record@ == rec@,
                Route::Online(id) => final(self).game_kind == GameKind::Online(id) && r@ == seq![
                    Effect::Connect(ClientMessage::Join(id)),
                ] && final(self).record.all_moves() == Seq::<Move>::empty(),
                Route::BadRecord => final(self).game_kind == old(self).game_kind && r@.len() == 1
                    && (r@[0] matches Effect::Confirm(Confirm::Error(e)) && e@
                    == "Failed to decode record."@) && final(self).record.all_moves() == Seq::<
                    Move,
                >::empty(),
                Route::Invalid => final(self).game_kind == old(self).game_kind && r@.len() == 1
                    && (r@[0] matches Effect::Confirm(Confirm::Error(e)) && e@
                    == "Invalid game ID."@) && final(self).record.all_moves() == Seq::<
                    Move,
                >::empty(),
            },
    {
        self.clear_all();
        let mut effects: Vec<Effect> = Vec::new();
        match route {
            Route::Home => {
                self.game_kind = GameKind::Pending;
                effects.push(Effect::ShowMainMenu);
            },
            Route::Local => {
                self.game_kind = GameKind::Local;
                match stored {
                    Some(rec) => self.record = rec,
                    None => {},
                }
            },
            Route::Replay(rec) => {
                self.game_kind = GameKind::Record;
                self.record = rec;
            },
            Route::BadRecord => effects.push(
                Effect::Confirm(Confirm::Error("Failed to decode record.".to_owned())),
            ),
            Route::Online(id) => {
                self.game_kind = GameKind::Online(id);
                effects.push(Effect::Connect(ClientMessage::Join(id)));
            },
            Route::Invalid => effects.push(
                Effect::Confirm(Confirm::Error("Invalid game ID.".to_owned())),
            ),
        }
        effects
    }
}

} // verus!
