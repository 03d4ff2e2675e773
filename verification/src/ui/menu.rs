//! What the game menu shows: the state of the game, and which controls are
//! enabled or highlighted.
use super::app::{ClientState, GameKind};
use super::board::WinClaim;
use crate::game::record::{ended, legal, placed, turn_spec};
use crate::game::{Move, Player, PlayerSlots, Record, Stone};
use crate::protocol::message::request_kind;
use crate::protocol::Request;
use vstd::prelude::*;

verus! {

/// Where the user stands with a kind of request.
#[derive(Clone, Copy, Debug, Eq, PartialEq, Structural)]
pub enum RequestState {
    /// The user is offline or unauthenticated.
    Irrelevant,
    /// The opponent has made this request.
    CanAccept,
    /// The user can make this request.
    CanMake,
    /// The user has made this request.
    Made,
    /// The user has made another request.
    MadeAnother,
}

/// Whether a pending request is of the kind of `kind`.
pub open spec fn is_kind(req: Option<Request>, kind: Request) -> bool {
    req matches Some(r) && request_kind(r) == request_kind(kind)
}

/// Where a user authenticated as `player` (if any) stands with requests
/// of the kind of `kind`.
pub open spec fn request_state_spec(
    player: Option<Player>,
    requests: PlayerSlots<Option<Request>>,
    kind: Request,
) -> RequestState {
    match player {
        Some(p) => if is_kind(requests.at(p.other()), kind) {
            RequestState::CanAccept
        } else if requests.at(p) is None {
            RequestState::CanMake
        } else if is_kind(requests.at(p), kind) {
            RequestState::Made
        } else {
            RequestState::MadeAnother
        },
        None => RequestState::Irrelevant,
    }
}

/// Whether the user has made a request, of this kind or another.
pub open spec fn made(s: RequestState) -> bool {
    s == RequestState::Made || s == RequestState::MadeAnother
}

/// The state of a game as the menu tells it.
#[derive(Clone, Copy, Debug, Eq, PartialEq, Structural)]
pub enum GameStatus {
    /// The stone to play.
    ToPlay(Stone),
    /// The game ended in a draw.
    Drawn,
    /// The stone resigned.
    Resigned(Stone),
    /// The stone won.
    Won(Stone),
}

/// The state of the game in a record.
pub open spec fn status_spec(r: Record) -> GameStatus {
    if !ended(r.past()) {
        GameStatus::ToPlay(turn_spec(r.at() as int))
    } else {
        match r.past().last() {
            Move::Draw => GameStatus::Drawn,
            Move::Resign(s) => GameStatus::Resigned(s),
            Move::Win(p, _) => GameStatus::Won(r.stones()[p]),
            _ => GameStatus::Drawn,
        }
    }
}

/// Which controls of the game menu are disabled, prominent (answering
/// the opponent's request) or pushed (a request of the user pending).
#[derive(Clone, Copy, Debug, Eq, PartialEq, Structural)]
pub struct MenuControls {
    /// Undo (or retract online) is disabled.
    pub undo_disabled: bool,
    /// Undo answers the opponent's request to retract.
    pub undo_prominent: bool,
    /// The user requested to retract.
    pub undo_pushed: bool,
    /// Redo is disabled.
    pub redo_disabled: bool,
    /// A win is being claimed.
    pub claim_pushed: bool,
    /// Claiming a win is disabled.
    pub claim_disabled: bool,
    /// Submitting is disabled.
    pub submit_disabled: bool,
    /// Home (or reset online) is disabled.
    pub home_disabled: bool,
    /// Home answers the opponent's request to reset.
    pub home_prominent: bool,
    /// The user requested to reset.
    pub home_pushed: bool,
    /// End is disabled.
    pub end_disabled: bool,
    /// Draw is disabled.
    pub draw_disabled: bool,
    /// Draw answers the opponent's offer of a draw.
    pub draw_prominent: bool,
    /// The user offered a draw.
    pub draw_pushed: bool,
    /// Resigning is disabled.
    pub resign_disabled: bool,
}

/// What the game menu offers besides leaving and resuming.
#[derive(Clone, Copy, Debug, Eq, PartialEq, Structural)]
pub enum MenuBody {
    /// Nothing: no game yet.
    Nothing,
    /// A button to authenticate, online before the user did.
    Authenticate,
    /// The game controls.
    Controls(MenuControls),
}

/// Where a user authenticated as `player` (if any) stands with requests of
/// the kind of `kind`.
pub fn request_state(
    player: Option<Player>,
    requests: &PlayerSlots<Option<Request>>,
    kind: Request,
) -> (r: RequestState)
    ensures
        r == request_state_spec(player, *requests, kind),
{
    match player {
        Some(p) => {
            if same_kind(requests.get(p.opposite()), kind) {
                RequestState::CanAccept
            } else if requests.get(p).is_none() {
                RequestState::CanMake
            } else if same_kind(requests.get(p), kind) {
                RequestState::Made
            } else {
                RequestState::MadeAnother
            }
        },
        None => RequestState::Irrelevant,
    }
}

/// Whether a pending request is of the kind of `kind`.
fn same_kind(req: Option<Request>, kind: Request) -> (r: bool)
    ensures
        r == is_kind(req, kind),
{
    match (req, kind) {
        (Some(Request::Draw), Request::Draw) => true,
        (Some(Request::Retract), Request::Retract) => true,
        (Some(Request::Reset(_)), Request::Reset(_)) => true,
        _ => false,
    }
}

/// The user has made a request, of this kind or another.
fn has_made(s: RequestState) -> (r: bool)
    ensures
        r == made(s),
{
    match s {
        RequestState::Made | RequestState::MadeAnother => true,
        _ => false,
    }
}

/// A winning row was picked and the move can be submitted.
fn claim_ready(claim: Option<WinClaim>) -> (r: bool)
    ensures
        r == (claim matches Some(WinClaim::Ready(_, _))),
{
    match claim {
        Some(WinClaim::Ready(..)) => true,
        _ => false,
    }
}

/// A win claim was started.
fn claiming(claim: Option<WinClaim>) -> (r: bool)
    ensures
        r == (claim is Some),
{
    claim.is_some()
}

impl ClientState {
    /// The state of the game.
    pub fn status(&self) -> (r: GameStatus)
        requires
            self.wf(),
        ensures
            r == status_spec(self.record),
    {
        match self.record.turn() {
            Some(s) => GameStatus::ToPlay(s),
            None => {
                proof {
                    lemma_won_stone_on_board(self.record);
                }
                match self.record.prev_move() {
                    Some(Move::Draw) => GameStatus::Drawn,
                    Some(Move::Resign(s)) => GameStatus::Resigned(s),
                    Some(Move::Win(p, _)) => {
                        match self.record.stone_at(p) {
                            Some(s) => GameStatus::Won(s),
                            None => GameStatus::Drawn,
                        }
                    },
                    _ => GameStatus::Drawn,
                }
            },
        }
    }

    /// What the game menu offers, `win_claim` being the progress of a win
    /// claim on the board.
    pub fn menu_body(&self, win_claim: Option<WinClaim>) -> (r: MenuBody)
        requires
            self.wf(),
        ensures
            ({
                let online = self.game_kind is Online;
                let rec = self.record;
                let no_past = rec.at() == 0;
                let no_future = rec.at() == rec.all_moves().len();
                let over = ended(rec.past());
                let retract = request_state_spec(self.player, self.requests, Request::Retract);
                let draw = request_state_spec(self.player, self.requests, Request::Draw);
                let reset = request_state_spec(
                    self.player,
                    self.requests,
                    Request::Reset(self.options.unwrap_or(crate::protocol::GameOptions { swapped: false })),
                );
                let stone = match (self.player, self.options) {
                    (Some(p), Some(o)) => Some(super::app::stone_under(o, p)),
                    _ => super::app::turn_of(rec),
                };
                if self.game_kind == GameKind::Pending {
                    r == MenuBody::Nothing
                } else if online && self.player is None {
                    r == MenuBody::Authenticate
                } else {
                    r == MenuBody::Controls(
                        MenuControls {
                            undo_disabled: no_past || made(retract),
                            undo_prominent: retract == RequestState::CanAccept,
                            undo_pushed: retract == RequestState::Made,
                            redo_disabled: no_future,
                            claim_pushed: win_claim is Some,
                            claim_disabled: over,
                            submit_disabled: over || (super::app::turn_of(rec) != stone && !(
                            win_claim matches Some(WinClaim::Ready(_, _)))),
                            home_disabled: (!online && no_past) || made(reset),
                            home_prominent: reset == RequestState::CanAccept,
                            home_pushed: reset == RequestState::Made,
                            end_disabled: no_future,
                            draw_disabled: over || made(draw),
                            draw_prominent: draw == RequestState::CanAccept,
                            draw_pushed: draw == RequestState::Made,
                            resign_disabled: over,
                        },
                    )
                }
            }),
    {
        let online = match self.game_kind {
            GameKind::Online(_) => true,
            _ => false,
        };
        match self.game_kind {
            GameKind::Pending => return MenuBody::Nothing,
            _ => {},
        }
        if online && self.player.is_none() {
            return MenuBody::Authenticate;
        }
        let no_past = !self.record.has_past();
        let no_future = !self.record.has_future();
        let over = self.record.is_ended();
        let reset_kind = Request::Reset(
            match self.options {
                Some(o) => o,
                None => crate::protocol::GameOptions { swapped: false },
            },
        );
        let retract = request_state(self.player, &self.requests, Request::Retract);
        let draw = request_state(self.player, &self.requests, Request::Draw);
        let reset = request_state(self.player, &self.requests, reset_kind);
        let stone = self.stone();
        let turn = self.record.turn();
        MenuBody::Controls(
            MenuControls {
                undo_disabled: no_past || has_made(retract),
                undo_prominent: retract == RequestState::CanAccept,
                undo_pushed: retract == RequestState::Made,
                redo_disabled: no_future,
                claim_pushed: claiming(win_claim),
                claim_disabled: over,
                submit_disabled: over || (turn != stone && !claim_ready(win_claim)),
                home_disabled: (!online && no_past) || has_made(reset),
                home_prominent: reset == RequestState::CanAccept,
                home_pushed: reset == RequestState::Made,
                end_disabled: no_future,
                draw_disabled: over || has_made(draw),
                draw_prominent: draw == RequestState::CanAccept,
                draw_pushed: draw == RequestState::Made,
                resign_disabled: over,
            },
        )
    }
}

/// In a well-formed record whose game ended with a win, the first end of
/// the winning row holds a stone.
proof fn lemma_won_stone_on_board(r: Record)
    requires
        r.wf(),
    ensures
        ended(r.past()) ==> (r.past().last() matches Move::Win(p, _) ==> r.stones().contains_key(
            p,
        )),
{
    if ended(r.past()) {
        let past = r.past();
        let k = past.len() - 1;
        let m = past.last();
        assert(r.all_moves()[k] == m);
        assert(r.all_moves().take(k) =~= past.drop_last());
        assert(legal(r.all_moves().take(k), r.all_moves()[k]));
        assert(placed(past) == placed(past.drop_last()));
    }
}

} // verus!
