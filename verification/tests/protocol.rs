use c6ol_core::game::{Direction, Move, Player, Point, Record, Stone};
use c6ol_core::protocol::{ClientMessage, GameId, GameOptions, Message, Request, ServerMessage};

#[test]
fn game_id_base62() {
    assert_eq!(GameId(0).to_base62(), "00000000000");
    assert_eq!(GameId(61).to_base62(), "0000000000z");
    assert_eq!(GameId(62).to_base62(), "00000000010");
    assert_eq!(GameId::from_base62(b"00000000010"), Some(GameId(62)));
    assert_eq!(GameId::from_base62(b"000000000A0"), Some(GameId(620)));
    assert_eq!(GameId::from_base62(b"0000000010"), None);
    assert_eq!(GameId::from_base62(b"000000000-0"), None);
    assert_eq!(GameId::from_base62(b"zzzzzzzzzzz"), None);
    for id in [GameId(-1), GameId(i64::MIN), GameId(i64::MAX), GameId(123456789)] {
        let s = id.to_base62();
        assert_eq!(s.len(), 11);
        assert_eq!(GameId::from_base62(s.as_bytes()), Some(id));
    }
}

#[test]
fn game_options_and_requests() {
    let swapped = GameOptions { swapped: true };
    assert_eq!(GameOptions::default().stone_of(Player::Host), Stone::Black);
    assert_eq!(GameOptions::default().stone_of(Player::Guest), Stone::White);
    assert_eq!(swapped.stone_of(Player::Host), Stone::White);
    assert_eq!(swapped.encode_to_vec(), vec![1]);
    assert_eq!(GameOptions::decode(&mut &[0u8][..]), Some(GameOptions { swapped: false }));
    assert_eq!(GameOptions::decode(&mut &[2u8][..]), None);
    assert_eq!(GameOptions::decode(&mut &[][..]), None);
    assert_eq!(Request::Draw.encode_to_vec(), vec![1]);
    assert_eq!(Request::Retract.encode_to_vec(), vec![2]);
    assert_eq!(Request::Reset(swapped).encode_to_vec(), vec![3, 1]);
    assert_eq!(Request::decode(&mut &[3u8, 1][..]), Some(Request::Reset(swapped)));
    assert_eq!(Request::decode(&mut &[3u8][..]), None);
    assert_eq!(Request::decode(&mut &[4u8][..]), None);
    assert_eq!(Player::from_u8(1), Some(Player::Guest));
    assert_eq!(Player::from_u8(2), None);
    assert_eq!(Player::Host.opposite(), Player::Guest);
}

#[test]
fn client_message_bytes() {
    let cases: Vec<(ClientMessage, Vec<u8>)> = vec![
        (ClientMessage::Start(GameOptions { swapped: false }), vec![0, 0]),
        (ClientMessage::Join(GameId(1)), vec![1, 0, 0, 0, 0, 0, 0, 0, 1]),
        (ClientMessage::Authenticate(-1), vec![2, 0xFF, 0xFF, 0xFF, 0xFF, 0xFF, 0xFF, 0xFF, 0xFF]),
        (ClientMessage::Place(Point::new(1, 0), None), vec![3, 6]),
        (ClientMessage::Place(Point::new(1, 0), Some(Point::new(0, 1))), vec![3, 6, 4]),
        (ClientMessage::Pass, vec![4]),
        (ClientMessage::ClaimWin(Point::new(0, 0), Direction::East), vec![5, 0, 2]),
        (ClientMessage::Resign, vec![6]),
        (ClientMessage::Request(Request::Draw), vec![7, 1]),
        (ClientMessage::AcceptRequest, vec![8]),
        (ClientMessage::DeclineRequest, vec![9]),
    ];
    for (msg, bytes) in cases {
        assert_eq!(msg.encode_to_vec(), bytes);
        let mut slice = &bytes[..];
        let decoded = ClientMessage::decode(&mut slice).unwrap();
        assert_eq!(decoded.encode_to_vec(), bytes);
        assert!(slice.is_empty());
    }
}

#[test]
fn client_message_errors() {
    assert!(ClientMessage::decode(&mut &[][..]).is_none());
    assert!(ClientMessage::decode(&mut &[10u8][..]).is_none());
    assert!(ClientMessage::decode(&mut &[4u8, 0][..]).is_none());
    assert!(ClientMessage::decode(&mut &[1u8, 0, 0][..]).is_none());
    assert!(ClientMessage::decode(&mut &[5u8, 0, 8][..]).is_none());
    assert!(ClientMessage::decode(&mut &[3u8, 6, 0x80][..]).is_none());
}

#[test]
fn server_message_bytes() {
    let cases: Vec<(ServerMessage, Vec<u8>)> = vec![
        (ServerMessage::Started(GameId(1)), vec![0, 0, 0, 0, 0, 0, 0, 0, 1]),
        (ServerMessage::Authenticated(Player::Guest), vec![1, 1]),
        (ServerMessage::Options(GameOptions { swapped: true }), vec![2, 1]),
        (ServerMessage::Record(Box::new(Record::new())), vec![3, 0]),
        (ServerMessage::Move(Move::Pass), vec![4, 0]),
        (ServerMessage::Retract, vec![5]),
        (ServerMessage::Request(Player::Host, Request::Retract), vec![6, 0, 2]),
        (ServerMessage::AcceptRequest(Player::Guest), vec![7, 1]),
        (ServerMessage::DeclineRequest(Player::Host), vec![8, 0]),
    ];
    for (msg, bytes) in cases {
        assert_eq!(msg.encode_to_vec(), bytes);
        let mut slice = &bytes[..];
        let decoded = ServerMessage::decode(&mut slice).unwrap();
        assert_eq!(decoded.encode_to_vec(), bytes);
        assert!(slice.is_empty());
    }
    assert!(ServerMessage::decode(&mut &[9u8][..]).is_none());
    assert!(ServerMessage::decode(&mut &[1u8, 2][..]).is_none());
    assert!(ServerMessage::decode(&mut &[5u8, 0][..]).is_none());
}

#[test]
fn server_record_message_keeps_the_past() {
    let mut record = Record::new();
    assert!(record.make_move(Move::Place(Point::new(0, 0), None)));
    assert!(record.make_move(Move::Place(Point::new(1, 1), Some(Point::new(2, 2)))));
    assert!(record.undo_move().is_some());
    let bytes = ServerMessage::Record(Box::new(record.clone())).encode_to_vec();
    match ServerMessage::decode(&mut &bytes[..]) {
        Some(ServerMessage::Record(decoded)) => {
            assert_eq!(decoded.moves(), &record.moves()[..1]);
            assert_eq!(decoded.move_index(), 1);
        }
        _ => panic!("a record message should read back"),
    }
}

#[test]
fn client_messages_with_a_byte_more_do_not_decode() {
    for m in [
        ClientMessage::Pass,
        ClientMessage::Join(GameId(5)),
        ClientMessage::Place(Point::new(1, 1), Some(Point::new(2, 2))),
        ClientMessage::Request(Request::Draw),
    ] {
        let mut b = m.encode_to_vec();
        b.push(0);
        assert!(ClientMessage::decode(&mut &b[..]).is_none());
    }
    // A one-stone placement goes on with a second stone.
    let mut b = ClientMessage::Place(Point::new(1, 1), None).encode_to_vec();
    b.push(0);
    assert!(matches!(ClientMessage::decode(&mut &b[..]), Some(ClientMessage::Place(_, Some(_)))));
}
