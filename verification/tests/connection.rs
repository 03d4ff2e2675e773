use c6ol_core::connection::{first_step, next_step, Step};
use c6ol_core::game::Point;
use c6ol_core::protocol::{ClientMessage, GameId, GameOptions};

#[test]
fn first_message_starts_or_joins() {
    let o = GameOptions { swapped: true };
    assert!(matches!(first_step(ClientMessage::Start(o)), Some(Step::Create(GameOptions { swapped: true }))));
    assert!(matches!(first_step(ClientMessage::Join(GameId(9))), Some(Step::Find(GameId(9)))));
    assert!(first_step(ClientMessage::Pass).is_none());
    assert!(first_step(ClientMessage::Authenticate(1)).is_none());
}

#[test]
fn later_messages_authenticate_once_then_play() {
    assert!(matches!(next_step(false, ClientMessage::Authenticate(5)), Some(Step::Authenticate(5))));
    assert!(next_step(true, ClientMessage::Authenticate(5)).is_none());
    assert!(next_step(false, ClientMessage::Pass).is_none());
    assert!(matches!(next_step(true, ClientMessage::Pass), Some(Step::Play(ClientMessage::Pass))));
    let place = ClientMessage::Place(Point::new(0, 0), None);
    assert!(matches!(next_step(true, place), Some(Step::Play(ClientMessage::Place(_, None)))));
    assert!(next_step(true, ClientMessage::Join(GameId(1))).is_none());
    assert!(next_step(true, ClientMessage::Start(GameOptions { swapped: false })).is_none());
}
