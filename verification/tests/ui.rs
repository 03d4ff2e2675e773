use c6ol_core::argon2id;
use c6ol_core::game::{Direction, Move, Player, Point, Record, Stone};
use c6ol_core::protocol::{ClientMessage, GameId, GameOptions, Request, ServerMessage};
use c6ol_core::ui::app::{ClientState, Confirm, ConfirmRetVal, Effect, Event, GameKind, GameMenuRetVal};
use c6ol_core::ui::board::{Selection, WinClaim};
use c6ol_core::ui::calc::{Calc, ClampTo, Zoom};
use c6ol_core::ui::confirm::{confirm_texts, is_transparent};
use c6ol_core::ui::keys::{key_command, KeyCommand};
use c6ol_core::ui::dialog::{is_game_id_text, reset_options, start_options};
use c6ol_core::ui::menu::{request_state, GameStatus, MenuBody, RequestState};
use c6ol_core::ui::route::{export_link, local_text, route, stored_record, Route};

fn calc() -> Calc {
    Calc { view_size: 15, view_center: Point::new(0, 0) }
}

fn p(x: i16, y: i16) -> Point {
    Point::new(x, y)
}

#[test]
fn calc_converts_positions() {
    let c = calc();
    assert_eq!(c.board_to_view_pos_unclamped(p(0, 0)), (8, 8));
    assert_eq!(c.board_to_view_pos(p(7, -7)), Some(p(15, 1)));
    assert_eq!(c.board_to_view_pos(p(8, 0)), None);
    assert_eq!(c.view_to_board_pos(p(1, 1)), p(-7, -7));
    assert!(c.view_pos_out_of_view(0, 5));
    assert!(!c.view_pos_out_of_view(15, 15));
    assert_eq!(c.board_to_view_pos_clamped(p(20, -20), ClampTo::Inside), (p(15, 1), true));
    assert_eq!(c.board_to_view_pos_clamped(p(20, -20), ClampTo::InsideAndBorder), (p(16, 0), true));
    assert_eq!(c.board_to_view_pos_clamped(p(1, 2), ClampTo::Inside), (p(9, 10), false));

    let shifted = Calc { view_size: 3, view_center: p(10, -10) };
    assert_eq!(shifted.view_to_board_pos(p(2, 2)), p(10, -10));
    assert_eq!(shifted.board_to_view_pos(p(11, -11)), Some(p(3, 1)));
}

#[test]
fn hitting_places_phantom_then_tentative() {
    let mut record = Record::new();
    let mut sel = Selection::new();
    let c = calc();

    assert!(!sel.hit_cursor(&mut record, &c, Some(Stone::Black), false, p(0, 0)));
    assert_eq!(sel.phantom, Some(p(0, 0)));
    assert!(sel.tentatives.is_empty());

    // The first move has one stone: it is ready at once.
    assert!(sel.hit_cursor(&mut record, &c, Some(Stone::Black), false, p(0, 0)));
    assert_eq!(sel.phantom, None);
    assert_eq!(sel.tentatives, vec![p(0, 0)]);

    // Hitting a tentative stone makes it phantom again.
    assert!(!sel.hit_cursor(&mut record, &c, Some(Stone::Black), false, p(0, 0)));
    assert_eq!(sel.phantom, Some(p(0, 0)));
    assert!(sel.tentatives.is_empty());

    // Out of view, or not our turn: nothing happens.
    assert!(!sel.hit_cursor(&mut record, &c, Some(Stone::Black), false, p(100, 0)));
    assert!(!sel.hit_cursor(&mut record, &c, Some(Stone::White), false, p(1, 1)));
    assert!(!sel.hit_cursor(&mut record, &c, None, false, p(1, 1)));
    assert_eq!(sel.phantom, Some(p(0, 0)));
    assert_eq!(record.moves().len(), 0);
}

#[test]
fn hitting_without_phantoms_toggles_tentatives() {
    let mut record = Record::new();
    assert!(record.make_move(Move::Place(p(0, 0), None)));
    let mut sel = Selection::new();
    let c = calc();

    // An occupied point cannot be picked.
    assert!(!sel.hit_cursor(&mut record, &c, Some(Stone::White), true, p(0, 0)));
    assert!(!sel.hit_cursor(&mut record, &c, Some(Stone::White), true, p(1, 0)));
    assert_eq!(sel.tentatives, vec![p(1, 0)]);
    assert!(!sel.hit_cursor(&mut record, &c, Some(Stone::White), true, p(1, 0)));
    assert!(sel.tentatives.is_empty());
    assert!(!sel.hit_cursor(&mut record, &c, Some(Stone::White), true, p(1, 0)));
    assert!(sel.hit_cursor(&mut record, &c, Some(Stone::White), true, p(2, 0)));
    assert_eq!(sel.tentatives, vec![p(1, 0), p(2, 0)]);
    // No more stones this turn.
    assert!(!sel.hit_cursor(&mut record, &c, Some(Stone::White), true, p(3, 0)));
    assert_eq!(sel.tentatives, vec![p(1, 0), p(2, 0)]);
    assert_eq!(sel.phantom, None);
}

/// Black has five stones in a row from the origin eastward and is to play.
fn five_in_a_row() -> Record {
    let mut record = Record::new();
    let moves = [
        Move::Place(p(0, 0), None),
        Move::Place(p(10, 10), Some(p(10, 11))),
        Move::Place(p(1, 0), Some(p(2, 0))),
        Move::Place(p(10, 12), Some(p(10, 13))),
        Move::Place(p(3, 0), Some(p(4, 0))),
        Move::Place(p(-10, 10), Some(p(-10, 11))),
    ];
    for m in moves {
        assert!(record.make_move(m));
    }
    record
}

#[test]
fn claiming_a_win_picks_the_row() {
    let mut record = five_in_a_row();
    let c = calc();
    let mut sel = Selection::new();
    sel.tentatives.push(p(5, 0));
    sel.win_claim = Some(WinClaim::PendingPoint);

    assert!(!sel.hit_cursor(&mut record, &c, Some(Stone::Black), false, p(0, 0)));
    assert_eq!(sel.win_claim, Some(WinClaim::PendingDirection(p(0, 0))));
    // Not the other end: the picked point moves.
    assert!(!sel.hit_cursor(&mut record, &c, Some(Stone::Black), false, p(4, 0)));
    assert_eq!(sel.win_claim, Some(WinClaim::PendingDirection(p(4, 0))));
    assert!(!sel.hit_cursor(&mut record, &c, Some(Stone::Black), false, p(0, 0)));
    assert_eq!(sel.win_claim, Some(WinClaim::PendingDirection(p(0, 0))));
    // Not a direction: nothing changes.
    assert!(!sel.hit_cursor(&mut record, &c, Some(Stone::Black), false, p(0, 0)));
    assert_eq!(sel.win_claim, Some(WinClaim::PendingDirection(p(0, 0))));
    // The other end, with the tentative stone placed for the test.
    assert!(sel.hit_cursor(&mut record, &c, Some(Stone::Black), false, p(5, 0)));
    assert_eq!(sel.win_claim, Some(WinClaim::Ready(p(0, 0), Direction::East)));
    // The record is left as it was.
    assert_eq!(record.stone_at(p(5, 0)), None);
    assert_eq!(record.moves().len(), 6);

    // Offline, submitting places the stone and claims the win.
    let mut state = ClientState::new();
    state.record = record;
    assert!(state.on_event(Event::Submit, false, &sel).is_empty());
    assert_eq!(state.record.moves().len(), 8);
    assert_eq!(state.record.stone_at(p(5, 0)), Some(Stone::Black));
    assert!(state.record.is_ended());
    assert_eq!(state.status(), GameStatus::Won(Stone::Black));
}

#[test]
fn online_submission_asks_to_confirm() {
    let mut state = ClientState::new();
    let mut sel = Selection::new();
    let out = state.on_event(Event::Submit, true, &sel);
    assert!(matches!(out.as_slice(), [Effect::Confirm(Confirm::Pass(None))]));

    sel.tentatives.push(p(0, 0));
    let out = state.on_event(Event::Submit, true, &sel);
    assert!(matches!(out.as_slice(), [Effect::Confirm(Confirm::Submit(q, None))] if *q == p(0, 0)));

    assert!(state.record.make_move(Move::Place(p(0, 0), None)));
    sel.tentatives[0] = p(1, 1);
    let out = state.on_event(Event::Submit, true, &sel);
    assert!(matches!(out.as_slice(), [Effect::Confirm(Confirm::Pass(Some(q)))] if *q == p(1, 1)));

    sel.tentatives.push(p(2, 2));
    let out = state.on_event(Event::Submit, true, &sel);
    assert!(matches!(
        out.as_slice(),
        [Effect::Confirm(Confirm::Submit(a, Some(b)))] if *a == p(1, 1) && *b == p(2, 2)
    ));

    sel.win_claim = Some(WinClaim::Ready(p(0, 0), Direction::South));
    let out = state.on_event(Event::Submit, true, &sel);
    match out.as_slice() {
        [Effect::Confirm(Confirm::Claim(t, q, d))] => {
            assert_eq!(t, &vec![p(1, 1), p(2, 2)]);
            assert_eq!(*q, p(0, 0));
            assert_eq!(*d, Direction::South);
        }
        other => panic!("unexpected {other:?}"),
    }
    // Nothing was played.
    assert_eq!(state.record.moves().len(), 1);
}

#[test]
fn offline_commands_change_the_record() {
    let mut state = ClientState::new();
    let mut sel = Selection::new();
    sel.tentatives.push(p(0, 0));
    assert!(state.on_event(Event::Submit, false, &sel).is_empty());
    sel.tentatives.clear();
    assert!(state.on_event(Event::Submit, false, &sel).is_empty());
    assert_eq!(state.record.moves(), &[Move::Place(p(0, 0), None), Move::Pass]);

    assert!(state.on_event(Event::Undo, false, &sel).is_empty());
    assert_eq!(state.record.move_index(), 1);
    assert!(state.on_event(Event::Home, false, &sel).is_empty());
    assert_eq!(state.record.move_index(), 0);
    assert!(state.on_event(Event::End, false, &sel).is_empty());
    assert_eq!(state.record.move_index(), 2);
    assert!(state.on_event(Event::Undo, false, &sel).is_empty());
    assert!(state.on_event(Event::Redo, false, &sel).is_empty());
    assert_eq!(state.record.move_index(), 2);
    // Online, undo and redo do not move through the record.
    assert!(state.on_event(Event::Undo, true, &sel).is_empty());
    assert_eq!(state.record.move_index(), 2);

    assert!(state.on_event(Event::Draw, false, &sel).is_empty());
    assert_eq!(state.record.prev_move(), Some(Move::Draw));
    assert_eq!(state.status(), GameStatus::Drawn);

    let out = state.on_event(Event::Resign, false, &sel);
    assert!(matches!(out.as_slice(), [Effect::Confirm(Confirm::Resign { online: false })]));
    let out = state.on_event(Event::Menu, false, &sel);
    assert!(matches!(out.as_slice(), [Effect::ShowGameMenu]));
}

#[test]
fn online_requests_answer_or_ask() {
    let mut state = ClientState::new();
    let sel = Selection::new();
    state.player = Some(Player::Host);
    state.options = Some(GameOptions { swapped: false });
    assert!(state.record.make_move(Move::Place(p(0, 0), None)));

    let out = state.on_event(Event::Undo, true, &sel);
    assert!(matches!(out.as_slice(), [Effect::Confirm(Confirm::RequestRetract)]));
    let out = state.on_event(Event::Draw, true, &sel);
    assert!(matches!(out.as_slice(), [Effect::Confirm(Confirm::RequestDraw)]));
    let out = state.on_event(Event::Home, true, &sel);
    assert!(matches!(out.as_slice(), [Effect::ShowReset(Player::Host, GameOptions { swapped: false })]));

    // The opponent asked for a draw: answer it.
    state.requests.guest = Some(Request::Draw);
    let out = state.on_event(Event::Draw, true, &sel);
    assert!(matches!(out.as_slice(), [Effect::Confirm(Confirm::Requested(Player::Host, Request::Draw))]));
    // Not a retraction: ask for one.
    let out = state.on_event(Event::Undo, true, &sel);
    assert!(matches!(out.as_slice(), [Effect::Confirm(Confirm::RequestRetract)]));

    // A request of our own pending: nothing more to ask.
    state.requests.guest = None;
    state.requests.host = Some(Request::Retract);
    assert!(state.on_event(Event::Draw, true, &sel).is_empty());
    assert!(state.on_event(Event::Home, true, &sel).is_empty());
    assert_eq!(state.record.moves().len(), 1);
}

#[test]
fn server_messages_update_the_state() {
    let mut state = ClientState::new();
    let out = state.on_message(ServerMessage::Started(GameId(42)));
    assert!(matches!(out.as_slice(), [Effect::ShowGameId(GameId(42))]));
    assert_eq!(state.game_kind, GameKind::Online(GameId(42)));

    let out = state.on_message(ServerMessage::Options(GameOptions { swapped: true }));
    assert!(matches!(out.as_slice(), [Effect::ShowAuth]));
    assert_eq!(state.options, Some(GameOptions { swapped: true }));
    assert_eq!(state.stone(), Some(Stone::Black));

    let out = state.on_message(ServerMessage::Request(Player::Guest, Request::Draw));
    assert!(out.is_empty());
    assert_eq!(state.requests.guest, Some(Request::Draw));

    let out = state.on_message(ServerMessage::Authenticated(Player::Host));
    assert!(matches!(
        out.as_slice(),
        [Effect::ShowGameMenu, Effect::Confirm(Confirm::Requested(Player::Host, Request::Draw))]
    ));
    assert_eq!(state.player, Some(Player::Host));
    // Swapped: the host plays white.
    assert_eq!(state.stone(), Some(Stone::White));

    let out = state.on_message(ServerMessage::DeclineRequest(Player::Host));
    assert!(out.is_empty());
    assert_eq!(state.requests.guest, None);

    state.requests.host = Some(Request::Retract);
    let out = state.on_message(ServerMessage::AcceptRequest(Player::Guest));
    assert!(matches!(out.as_slice(), [Effect::Confirm(Confirm::RequestAccepted)]));
    assert_eq!(state.requests.host, None);

    state.requests.host = Some(Request::Draw);
    let out = state.on_message(ServerMessage::Move(Move::Place(p(0, 0), None)));
    assert!(matches!(out.as_slice(), [Effect::CloseConfirms]));
    assert_eq!(state.requests.host, None);
    assert_eq!(state.record.moves(), &[Move::Place(p(0, 0), None)]);

    // An illegal move is ignored.
    state.on_message(ServerMessage::Move(Move::Place(p(0, 0), None)));
    assert_eq!(state.record.moves().len(), 1);

    state.on_message(ServerMessage::Move(Move::Pass));
    state.on_message(ServerMessage::Retract);
    assert_eq!(state.record.moves(), &[Move::Place(p(0, 0), None)]);

    let mut other = Record::new();
    assert!(other.make_move(Move::Place(p(3, 3), None)));
    assert!(other.make_move(Move::Pass));
    state.on_message(ServerMessage::Record(Box::new(other)));
    assert_eq!(state.record.moves(), &[Move::Place(p(3, 3), None), Move::Pass]);

    // Options again, authenticated and with options known: nothing to show.
    let out = state.on_message(ServerMessage::Options(GameOptions { swapped: false }));
    assert!(out.is_empty());

    state.clear_all();
    assert_eq!(state.player, None);
    assert_eq!(state.options, None);
    assert_eq!(state.record.moves().len(), 0);
    assert_eq!(state.game_kind, GameKind::Online(GameId(42)));
}

#[test]
fn retraction_drops_the_future() {
    let mut state = ClientState::new();
    for m in [Move::Place(p(0, 0), None), Move::Pass, Move::Pass] {
        assert!(state.record.make_move(m));
    }
    assert!(state.record.jump(2));
    state.on_message(ServerMessage::Retract);
    assert_eq!(state.record.moves(), &[Move::Place(p(0, 0), None)]);
    assert_eq!(state.record.move_index(), 1);
}

#[test]
fn confirmations_send_messages() {
    let mut state = ClientState::new();
    let out = state.on_confirm(Confirm::Claim(vec![p(1, 1)], p(0, 0), Direction::East), ConfirmRetVal::Confirm);
    assert!(matches!(
        out.as_slice(),
        [
            Effect::Send(ClientMessage::Place(a, None)),
            Effect::Send(ClientMessage::ClaimWin(b, Direction::East)),
        ] if *a == p(1, 1) && *b == p(0, 0)
    ));
    let out = state.on_confirm(Confirm::Claim(vec![], p(0, 0), Direction::East), ConfirmRetVal::Confirm);
    assert!(matches!(out.as_slice(), [Effect::Send(ClientMessage::ClaimWin(_, Direction::East))]));

    let out = state.on_confirm(Confirm::Pass(Some(p(2, 2))), ConfirmRetVal::Confirm);
    assert!(matches!(out.as_slice(), [Effect::Send(ClientMessage::Place(q, None))] if *q == p(2, 2)));
    let out = state.on_confirm(Confirm::Pass(None), ConfirmRetVal::Confirm);
    assert!(matches!(out.as_slice(), [Effect::Send(ClientMessage::Pass)]));
    let out = state.on_confirm(Confirm::Requested(Player::Host, Request::Draw), ConfirmRetVal::Confirm);
    assert!(matches!(out.as_slice(), [Effect::Send(ClientMessage::AcceptRequest)]));
    let out = state.on_confirm(Confirm::Requested(Player::Host, Request::Draw), ConfirmRetVal::AltConfirm);
    assert!(matches!(out.as_slice(), [Effect::Send(ClientMessage::DeclineRequest)]));
    let out = state.on_confirm(Confirm::RequestRetract, ConfirmRetVal::Confirm);
    assert!(matches!(out.as_slice(), [Effect::Send(ClientMessage::Request(Request::Retract))]));
    let out = state.on_confirm(Confirm::Resign { online: true }, ConfirmRetVal::Confirm);
    assert!(matches!(out.as_slice(), [Effect::Send(ClientMessage::Resign)]));

    // Dismissing sends nothing, but an error leads home.
    assert!(state.on_confirm(Confirm::Submit(p(0, 0), None), ConfirmRetVal::Cancel).is_empty());
    let out = state.on_confirm(Confirm::Error("oops".to_string()), ConfirmRetVal::Cancel);
    assert!(matches!(out.as_slice(), [Effect::GoHome]));
    let out = state.on_confirm(Confirm::ConnClosed("gone".to_string()), ConfirmRetVal::Confirm);
    assert!(matches!(out.as_slice(), [Effect::Reconnect]));

    // Offline, the other choice makes black resign.
    assert!(state.on_confirm(Confirm::Resign { online: false }, ConfirmRetVal::AltConfirm).is_empty());
    assert_eq!(state.record.moves(), &[Move::Resign(Stone::Black)]);
    assert_eq!(state.status(), GameStatus::Resigned(Stone::Black));
}

#[test]
fn game_menu_choices() {
    let mut state = ClientState::new();
    let mut sel = Selection::new();
    let out = state.on_game_menu_return(GameMenuRetVal::MainMenu, false, &mut sel);
    assert!(matches!(out.as_slice(), [Effect::GoHome]));
    let out = state.on_game_menu_return(GameMenuRetVal::MainMenu, true, &mut sel);
    assert!(matches!(out.as_slice(), [Effect::Confirm(Confirm::MainMenu)]));
    let out = state.on_game_menu_return(GameMenuRetVal::ClaimWin, true, &mut sel);
    assert!(matches!(out.as_slice(), [Effect::Confirm(Confirm::BeginClaim)]));
    assert_eq!(sel.win_claim, Some(WinClaim::PendingPoint));
    assert!(state.on_game_menu_return(GameMenuRetVal::ClaimWin, true, &mut sel).is_empty());
    assert_eq!(sel.win_claim, None);
    let out = state.on_game_menu_return(GameMenuRetVal::Auth, true, &mut sel);
    assert!(matches!(out.as_slice(), [Effect::ShowAuth]));
    assert!(state.on_game_menu_return(GameMenuRetVal::Submit, false, &mut sel).is_empty());
    assert_eq!(state.record.moves(), &[Move::Pass]);
}

#[test]
fn menu_shows_state() {
    let mut state = ClientState::new();
    assert_eq!(state.menu_body(None), MenuBody::Nothing);
    state.game_kind = GameKind::Online(GameId(1));
    assert_eq!(state.menu_body(None), MenuBody::Authenticate);

    state.game_kind = GameKind::Local;
    match state.menu_body(None) {
        MenuBody::Controls(c) => {
            assert!(c.undo_disabled && c.redo_disabled && c.home_disabled && c.end_disabled);
            assert!(!c.submit_disabled && !c.resign_disabled && !c.claim_pushed);
        }
        other => panic!("unexpected {other:?}"),
    }
    assert_eq!(state.status(), GameStatus::ToPlay(Stone::Black));

    state.game_kind = GameKind::Online(GameId(1));
    state.player = Some(Player::Guest);
    state.options = Some(GameOptions { swapped: false });
    assert!(state.record.make_move(Move::Place(p(0, 0), None)));
    state.requests.host = Some(Request::Retract);
    match state.menu_body(Some(WinClaim::PendingPoint)) {
        MenuBody::Controls(c) => {
            assert!(!c.undo_disabled && c.undo_prominent && !c.undo_pushed);
            assert!(!c.home_disabled && !c.home_prominent);
            assert!(c.claim_pushed);
            // White (the guest) is to play.
            assert!(!c.submit_disabled);
        }
        other => panic!("unexpected {other:?}"),
    }
    state.requests.host = None;
    state.requests.guest = Some(Request::Draw);
    match state.menu_body(None) {
        MenuBody::Controls(c) => {
            assert!(c.draw_pushed && c.draw_disabled && c.undo_disabled && c.home_disabled);
        }
        other => panic!("unexpected {other:?}"),
    }

    let requests = state.requests;
    assert_eq!(request_state(None, &requests, Request::Draw), RequestState::Irrelevant);
    assert_eq!(request_state(Some(Player::Guest), &requests, Request::Draw), RequestState::Made);
    assert_eq!(request_state(Some(Player::Guest), &requests, Request::Retract), RequestState::MadeAnother);
    assert_eq!(request_state(Some(Player::Host), &requests, Request::Draw), RequestState::CanAccept);
    assert_eq!(request_state(Some(Player::Host), &requests, Request::Retract), RequestState::CanMake);
}

#[test]
fn routes() {
    assert!(matches!(route(""), Route::Home));
    assert!(matches!(route("local"), Route::Local));
    assert!(matches!(route("locals"), Route::Invalid));
    assert!(matches!(route("rec,!!"), Route::BadRecord));
    assert!(matches!(route("analyze,"), Route::BadRecord));
    assert!(matches!(route("nonsense"), Route::Invalid));
    let id = GameId(123_456_789).to_base62();
    assert!(matches!(route(&id), Route::Online(GameId(123_456_789))));
}

#[test]
fn shared_and_stored_records_read_back() {
    let mut record = five_in_a_row();
    assert!(record.undo_move().is_some());

    let link = export_link(&record);
    assert!(link.starts_with("#rec,"));
    match route(&link[1..]) {
        Route::Replay(r) => {
            assert_eq!(r.moves(), &record.moves()[..5]);
            assert_eq!(r.move_index(), 5);
        }
        _ => panic!("the link does not lead to the record"),
    }

    let text = local_text(&record);
    let back = stored_record(&text).expect("the stored record reads back");
    assert_eq!(back.moves(), record.moves());
    assert_eq!(back.move_index(), record.move_index());
    assert!(stored_record("!").is_none());

    // The legacy prefix takes standard base64.
    match route(&format!("analyze,{text}")) {
        Route::Replay(r) => assert_eq!(r.moves(), record.moves()),
        _ => panic!("the legacy address does not lead to the record"),
    }
}

#[test]
fn authentication_hashes_with_the_game_id() {
    let mut state = ClientState::new();
    assert!(state.authenticate(b"secret").is_empty());
    state.game_kind = GameKind::Online(GameId(77));
    let expected = argon2id::hash(b"secret", 77).expect("hashing succeeds");
    let out = state.authenticate(b"secret");
    assert!(matches!(out.as_slice(), [Effect::Send(ClientMessage::Authenticate(h))] if *h == expected));
}

#[test]
fn zooming_and_moving_the_cursor() {
    let c = calc();
    assert_eq!(c.zoomed(Zoom::Out), Some(17));
    assert_eq!(c.zoomed(Zoom::In), Some(13));
    let one = Calc { view_size: 1, view_center: p(4, 4) };
    assert_eq!(one.zoomed(Zoom::In), None);
    assert_eq!(one.zoomed(Zoom::Out), Some(3));

    // Inside the view the cursor stays; outside it moves to the nearest edge.
    assert_eq!(c.clamp_cursor(p(3, -3)), p(3, -3));
    assert_eq!(c.clamp_cursor(p(30, -30)), p(7, -7));
    assert_eq!(c.clamp_cursor(p(0, 9)), p(0, 7));

    // The view follows a cursor stepping out of it.
    assert_eq!(c.step_cursor(p(6, 0), 1, 0), (p(7, 0), p(0, 0)));
    assert_eq!(c.step_cursor(p(7, 0), 1, 0), (p(8, 0), p(1, 0)));
    assert_eq!(c.step_cursor(p(0, -7), 0, -1), (p(0, -8), p(0, -1)));
}

#[test]
fn dialog_choices() {
    assert_eq!(start_options(Stone::Black), GameOptions { swapped: false });
    assert_eq!(start_options(Stone::White), GameOptions { swapped: true });

    let plain = GameOptions { swapped: false };
    let swapped = GameOptions { swapped: true };
    // The host plays black; asking for white swaps the stones.
    assert_eq!(reset_options(plain, Player::Host, Stone::White), swapped);
    assert_eq!(reset_options(plain, Player::Host, Stone::Black), plain);
    // The guest plays black once swapped; keeping black keeps the swap.
    assert_eq!(reset_options(swapped, Player::Guest, Stone::Black), swapped);
    assert_eq!(reset_options(swapped, Player::Guest, Stone::White), plain);

    assert!(is_game_id_text(b"abcDEF01239"));
    assert!(!is_game_id_text(b"abcDEF0123"));
    assert!(!is_game_id_text(b"abcDEF-1239"));
    assert!(!is_game_id_text(b"abcDEF012399"));
}

#[test]
fn going_to_an_address() {
    let mut state = ClientState::new();
    state.player = Some(Player::Host);
    let out = state.go_to(route(""), None);
    assert!(matches!(out.as_slice(), [Effect::ShowMainMenu]));
    assert_eq!(state.game_kind, GameKind::Pending);
    assert_eq!(state.player, None);

    let mut stored = Record::new();
    assert!(stored.make_move(Move::Place(p(0, 0), None)));
    assert!(state.go_to(route("local"), Some(stored)).is_empty());
    assert_eq!(state.game_kind, GameKind::Local);
    assert_eq!(state.record.moves(), &[Move::Place(p(0, 0), None)]);
    assert!(state.go_to(route("local"), None).is_empty());
    assert!(state.record.moves().is_empty());

    let id = GameId(987_654).to_base62();
    let out = state.go_to(route(&id), None);
    assert!(matches!(out.as_slice(), [Effect::Connect(ClientMessage::Join(GameId(987_654)))]));
    assert_eq!(state.game_kind, GameKind::Online(GameId(987_654)));

    let out = state.go_to(route("what"), None);
    match out.as_slice() {
        [Effect::Confirm(Confirm::Error(e))] => assert_eq!(e, "Invalid game ID."),
        other => panic!("unexpected {other:?}"),
    }
    let out = state.go_to(route("rec,!!"), None);
    match out.as_slice() {
        [Effect::Confirm(Confirm::Error(e))] => assert_eq!(e, "Failed to decode record."),
        other => panic!("unexpected {other:?}"),
    }
    // The game shown is left as it was on an error.
    assert_eq!(state.game_kind, GameKind::Online(GameId(987_654)));

    let mut rec = Record::new();
    assert!(rec.make_move(Move::Pass));
    let link = export_link(&rec);
    assert!(state.go_to(route(&link[1..]), None).is_empty());
    assert_eq!(state.game_kind, GameKind::Record);
    assert_eq!(state.record.moves(), &[Move::Pass]);
}

#[test]
fn clearing_the_selection() {
    let mut sel = Selection::new();
    sel.phantom = Some(p(1, 1));
    sel.tentatives.push(p(2, 2));
    sel.win_claim = Some(WinClaim::PendingPoint);
    sel.clear();
    assert_eq!(sel.phantom, None);
    assert!(sel.tentatives.is_empty());
    assert_eq!(sel.win_claim, None);
}

#[test]
fn keys_map_to_commands() {
    assert_eq!(key_command("Escape", false, false, false), Some(KeyCommand::Menu));
    assert_eq!(key_command("Escape", false, false, true), None);
    assert_eq!(key_command("KeyW", false, false, false), Some(KeyCommand::MoveCursor(0, -1)));
    assert_eq!(key_command("KeyA", false, false, true), Some(KeyCommand::MoveCursor(-1, 0)));
    assert_eq!(key_command("KeyS", false, false, false), Some(KeyCommand::MoveCursor(0, 1)));
    assert_eq!(key_command("KeyD", false, false, false), Some(KeyCommand::MoveCursor(1, 0)));
    assert_eq!(key_command("ArrowUp", false, false, false), Some(KeyCommand::MoveView(0, -1)));
    assert_eq!(key_command("ArrowLeft", false, false, false), Some(KeyCommand::MoveView(-1, 0)));
    assert_eq!(key_command("ArrowDown", false, false, false), Some(KeyCommand::MoveView(0, 1)));
    assert_eq!(key_command("ArrowRight", false, false, false), Some(KeyCommand::MoveView(1, 0)));
    assert_eq!(key_command("Minus", false, false, false), Some(KeyCommand::Zoom(Zoom::Out)));
    assert_eq!(key_command("Equal", false, false, false), Some(KeyCommand::Zoom(Zoom::In)));
    assert_eq!(key_command("Backspace", false, false, false), Some(KeyCommand::Undo));
    assert_eq!(key_command("Backspace", false, true, false), Some(KeyCommand::Redo));
    assert_eq!(key_command("KeyZ", false, false, false), None);
    assert_eq!(key_command("KeyZ", true, false, false), Some(KeyCommand::Undo));
    assert_eq!(key_command("KeyZ", true, true, false), Some(KeyCommand::Redo));
    assert_eq!(key_command("Home", false, false, false), Some(KeyCommand::Home));
    assert_eq!(key_command("End", false, false, false), Some(KeyCommand::End));
    assert_eq!(key_command("Enter", false, false, false), Some(KeyCommand::Hit));
    assert_eq!(key_command("Space", false, false, false), Some(KeyCommand::Hit));
    assert_eq!(key_command("Space", false, false, true), None);
    assert_eq!(key_command("KeyQ", false, false, false), None);
}

#[test]
fn confirm_dialog_texts() {
    let t = confirm_texts(&Confirm::Pass(Some(p(0, 0))), None);
    assert_eq!(t.message, "Place one stone and pass?");
    assert_eq!(t.confirm, "Confirm");
    assert_eq!(t.cancel.as_deref(), Some("Cancel"));
    assert!(t.title.is_none() && t.alt_confirm.is_none());
    assert!(is_transparent(&Confirm::Pass(None)));
    assert!(!is_transparent(&Confirm::RequestDraw));

    let t = confirm_texts(&Confirm::Claim(vec![p(1, 1)], p(0, 0), Direction::East), None);
    assert_eq!(t.message, "Place one stone and claim a win?");
    let t = confirm_texts(&Confirm::BeginClaim, None);
    assert_eq!(t.confirm, "Noted");
    assert!(t.cancel.is_none());

    // The host plays black; a reset that swaps the stones makes them white.
    let plain = GameOptions { swapped: false };
    let swapped = GameOptions { swapped: true };
    let t = confirm_texts(&Confirm::Requested(Player::Host, Request::Reset(swapped)), Some(plain));
    assert_eq!(t.message, "The opponent requests to reset the game. Your stone will switch to White.");
    assert_eq!((t.confirm.as_str(), t.cancel.as_deref(), t.alt_confirm.as_deref()), ("Accept", Some("Ignore"), Some("Decline")));
    let t = confirm_texts(&Confirm::Requested(Player::Guest, Request::Reset(plain)), Some(plain));
    assert_eq!(t.message, "The opponent requests to reset the game. Your stone will remain White.");

    let t = confirm_texts(&Confirm::Resign { online: false }, None);
    assert_eq!((t.confirm.as_str(), t.alt_confirm.as_deref()), ("White", Some("Black")));
    let t = confirm_texts(&Confirm::ConnClosed("Connection failed.".to_string()), None);
    assert_eq!(t.title.as_deref(), Some("Connection Closed"));
    assert_eq!(t.message, "Connection failed.");
    assert_eq!((t.confirm.as_str(), t.cancel.as_deref()), ("Retry", Some("Menu")));
    let t = confirm_texts(&Confirm::Error("Invalid game ID.".to_string()), None);
    assert_eq!((t.title.as_deref(), t.confirm.as_str(), t.cancel.as_deref()), (Some("Error"), "Main Menu", None));
}
