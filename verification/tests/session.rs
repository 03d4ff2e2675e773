use c6ol_core::game::{Move, Player, PlayerSlots, Point, Record, RecordEncodingScheme, Stone};
use c6ol_core::protocol::{ClientMessage, GameOptions, Message, Request, ServerMessage};
use c6ol_core::session::{GameState, StoredError};

fn bytes(msgs: &[ServerMessage]) -> Vec<Vec<u8>> {
    msgs.iter().map(|m| m.clone().encode_to_vec()).collect()
}

#[test]
fn authentication_assigns_players() {
    let mut state = GameState::new(GameOptions::default());
    assert_eq!(state.authenticate(11), Some(Player::Host));
    assert_eq!(state.authenticate(11), Some(Player::Host));
    assert_eq!(state.authenticate(22), Some(Player::Guest));
    assert_eq!(state.authenticate(22), Some(Player::Guest));
    assert_eq!(state.authenticate(33), None);
    assert_eq!(state.passcode_hashes.host, Some(11));
    assert_eq!(state.passcode_hashes.guest, Some(22));
}

#[test]
fn moves_need_the_turn() {
    let mut state = GameState::new(GameOptions::default());
    let place = ClientMessage::Place(Point::new(0, 0), None);
    assert!(state.play(Player::Guest, place).is_empty());
    let out = state.play(Player::Host, place);
    assert_eq!(bytes(&out), vec![ServerMessage::Move(Move::Place(Point::new(0, 0), None)).encode_to_vec()]);
    assert!(state.play(Player::Host, ClientMessage::Pass).is_empty());
    // An illegal move does nothing.
    assert!(state.play(Player::Guest, place).is_empty());
    assert_eq!(state.play(Player::Guest, ClientMessage::Pass).len(), 1);
    assert_eq!(state.record.moves().len(), 2);
    // Starting or joining does nothing once in a game.
    assert!(state.play(Player::Host, ClientMessage::Join(c6ol_core::protocol::GameId(1))).is_empty());
}

#[test]
fn swapped_options_swap_stones() {
    let mut state = GameState::new(GameOptions { swapped: true });
    let place = ClientMessage::Place(Point::new(0, 0), None);
    assert!(state.play(Player::Host, place).is_empty());
    assert_eq!(state.play(Player::Guest, place).len(), 1);
    let out = state.play(Player::Host, ClientMessage::Resign);
    assert_eq!(bytes(&out), vec![ServerMessage::Move(Move::Resign(Stone::White)).encode_to_vec()]);
    assert!(state.record.is_ended());
}

#[test]
fn requests_are_made_answered_and_cleared() {
    let mut state = GameState::new(GameOptions::default());
    // No move to retract yet.
    assert!(state.play(Player::Host, ClientMessage::Request(Request::Retract)).is_empty());
    assert_eq!(state.play(Player::Host, ClientMessage::Place(Point::new(0, 0), None)).len(), 1);
    let out = state.play(Player::Host, ClientMessage::Request(Request::Retract));
    assert_eq!(bytes(&out), vec![vec![6, 0, 2]]);
    // A second request waits for the first to be answered.
    assert!(state.play(Player::Host, ClientMessage::Request(Request::Draw)).is_empty());
    assert_eq!(state.requests.host, Some(Request::Retract));
    // The host cannot accept their own request.
    assert!(state.play(Player::Host, ClientMessage::AcceptRequest).is_empty());
    let out = state.play(Player::Guest, ClientMessage::AcceptRequest);
    assert_eq!(bytes(&out), vec![vec![5], vec![7, 1]]);
    assert_eq!(state.record.move_index(), 0);
    assert_eq!(state.requests.host, None);
    // A declined request is dropped.
    assert_eq!(state.play(Player::Guest, ClientMessage::Request(Request::Draw)).len(), 1);
    let out = state.play(Player::Host, ClientMessage::DeclineRequest);
    assert_eq!(bytes(&out), vec![vec![8, 0]]);
    assert_eq!(state.requests.guest, None);
    assert!(state.play(Player::Host, ClientMessage::DeclineRequest).is_empty());
}

#[test]
fn a_draw_and_a_reset() {
    let mut state = GameState::new(GameOptions::default());
    assert_eq!(state.play(Player::Host, ClientMessage::Place(Point::new(0, 0), None)).len(), 1);
    assert_eq!(state.play(Player::Guest, ClientMessage::Request(Request::Draw)).len(), 1);
    let out = state.play(Player::Host, ClientMessage::AcceptRequest);
    assert_eq!(bytes(&out), vec![vec![4, 2], vec![7, 0]]);
    assert!(state.record.is_ended());
    let swapped = GameOptions { swapped: true };
    assert_eq!(state.play(Player::Guest, ClientMessage::Request(Request::Reset(swapped))).len(), 1);
    let out = state.play(Player::Host, ClientMessage::AcceptRequest);
    assert_eq!(bytes(&out), vec![vec![2, 1], vec![3, 0], vec![7, 0]]);
    assert_eq!(state.options, swapped);
    assert_eq!(state.record.move_index(), 0);
    assert_eq!(state.record.moves().len(), 2);
}

#[test]
fn subscribers_get_the_state_first() {
    let mut state = GameState::new(GameOptions::default());
    assert_eq!(state.play(Player::Host, ClientMessage::Place(Point::new(0, 0), None)).len(), 1);
    assert_eq!(state.play(Player::Guest, ClientMessage::Request(Request::Draw)).len(), 1);
    let msgs = state.init_messages();
    assert_eq!(bytes(&msgs), vec![vec![2, 0], vec![3, 0, 7], vec![6, 1, 1]]);
}

#[test]
fn stored_columns_rebuild_the_game() {
    let mut record = Record::new();
    assert!(record.make_move(Move::Place(Point::new(1, 2), None)));
    let bytes = record.encode_to_vec(RecordEncodingScheme::past());
    let hashes = PlayerSlots { host: Some(5), guest: None };
    let draw = Request::Draw.encode_to_vec();

    let state = GameState::from_columns(&[1], hashes, Some(&draw), None, &bytes).expect("decodes");
    assert_eq!(state.options, GameOptions { swapped: true });
    assert_eq!(state.passcode_hashes, hashes);
    assert_eq!(state.requests.host, Some(Request::Draw));
    assert_eq!(state.requests.guest, None);
    assert_eq!(state.record.moves(), &[Move::Place(Point::new(1, 2), None)]);

    assert_eq!(GameState::from_columns(&[7], hashes, None, None, &bytes).err(), Some(StoredError::Options));
    assert_eq!(GameState::from_columns(&[], hashes, None, None, &bytes).err(), Some(StoredError::Options));
    assert_eq!(GameState::from_columns(&[0], hashes, None, Some(&[9]), &bytes).err(), Some(StoredError::Request));
    assert_eq!(GameState::from_columns(&[0], hashes, None, None, &[]).err(), Some(StoredError::Record));
}
