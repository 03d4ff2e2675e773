use c6ol_core::game::{turn_at, Direction, Move, Point, Record, RecordEncodingScheme, Stone};

fn p(x: i16, y: i16) -> Point {
    Point::new(x, y)
}

#[test]
fn illegal_moves_are_refused() {
    let mut record = Record::new();
    assert!(!record.make_move(Move::Place(p(0, 0), Some(p(1, 1)))));
    assert!(!record.make_move(Move::Place(p(0x4000, 0), None)));
    assert!(record.make_move(Move::Place(p(0, 0), None)));
    assert!(!record.make_move(Move::Place(p(0, 0), Some(p(1, 1)))));
    assert!(!record.make_move(Move::Place(p(2, 2), Some(p(2, 2)))));
    assert!(!record.make_move(Move::Win(p(0, 0), Direction::East)));
    assert!(record.make_move(Move::Resign(Stone::White)));
    assert!(record.is_ended());
    assert!(!record.make_move(Move::Pass));
    assert_eq!(record.turn(), None);
    assert_eq!(record.max_stones_to_play(), 0);
}

#[test]
fn turns_and_navigation() {
    assert_eq!(turn_at(0), Stone::Black);
    assert_eq!(turn_at(1), Stone::White);
    let mut record = Record::new();
    assert_eq!(record.turn(), Some(Stone::Black));
    assert_eq!(record.max_stones_to_play(), 1);
    assert!(record.make_move(Move::Place(p(0, 0), None)));
    assert!(record.make_move(Move::Place(p(1, 0), Some(p(2, 0)))));
    assert_eq!(record.turn(), Some(Stone::Black));
    assert_eq!(record.max_stones_to_play(), 2);
    assert_eq!(record.stone_at(p(2, 0)), Some(Stone::White));
    assert_eq!(record.undo_move(), Some(Move::Place(p(1, 0), Some(p(2, 0)))));
    assert_eq!(record.stone_at(p(2, 0)), None);
    assert!(record.has_future());
    assert_eq!(record.next_move(), Some(Move::Place(p(1, 0), Some(p(2, 0)))));
    assert_eq!(record.redo_move(), Some(Move::Place(p(1, 0), Some(p(2, 0)))));
    assert_eq!(record.redo_move(), None);
    assert!(record.jump(0));
    assert_eq!(record.stone_at(p(0, 0)), None);
    assert!(!record.has_past());
    assert!(!record.jump(3));
    assert!(record.jump(2));
    assert_eq!(record.prev_move(), Some(Move::Place(p(1, 0), Some(p(2, 0)))));
    assert_eq!(record.move_index(), 2);
    assert!(record.make_move(Move::Pass));
    record.clear();
    assert_eq!(record.moves().len(), 0);
    assert_eq!(record.undo_move(), None);
}

#[test]
fn making_a_move_drops_the_future() {
    let mut record = Record::new();
    assert!(record.make_move(Move::Place(p(0, 0), None)));
    assert!(record.make_move(Move::Pass));
    assert!(record.undo_move().is_some());
    assert!(record.make_move(Move::Place(p(5, 5), None)));
    assert_eq!(record.moves(), &[Move::Place(p(0, 0), None), Move::Place(p(5, 5), None)]);
    assert!(!record.has_future());
}

fn row_record() -> Record {
    let mut record = Record::new();
    assert!(record.make_move(Move::Place(p(0, 0), None)));
    assert!(record.make_move(Move::Place(p(0, 10), Some(p(1, 10)))));
    assert!(record.make_move(Move::Place(p(1, 0), Some(p(2, 0)))));
    assert!(record.make_move(Move::Place(p(0, 11), Some(p(1, 11)))));
    assert!(record.make_move(Move::Place(p(3, 0), Some(p(5, 0)))));
    record
}

#[test]
fn winning_rows() {
    let mut record = row_record();
    // Black has 0, 1, 2, 3, 5 on the x axis: no row yet.
    assert_eq!(record.find_winning_row(p(0, 0)), None);
    assert_eq!(record.test_winning_row(p(0, 0), Direction::East), None);
    assert!(record.make_move(Move::Place(p(0, 12), Some(p(1, 12)))));
    assert!(record.make_move(Move::Place(p(4, 0), Some(p(9, 9)))));
    assert_eq!(record.test_winning_row(p(0, 0), Direction::East), Some(p(5, 0)));
    assert_eq!(record.test_winning_row(p(5, 0), Direction::West), Some(p(0, 0)));
    assert_eq!(record.test_winning_row(p(1, 0), Direction::East), None);
    assert_eq!(record.find_winning_row(p(0, 0)), Some((p(5, 0), Direction::West)));
    assert_eq!(record.find_winning_row(p(2, 0)), Some((p(0, 0), Direction::East)));
    assert_eq!(record.find_winning_row(p(5, 0)), Some((p(0, 0), Direction::East)));
    assert_eq!(record.find_winning_row(p(7, 7)), None);
    assert!(record.make_move(Move::Win(p(5, 0), Direction::West)));
    assert!(record.is_ended());
}

#[test]
fn temporary_placements() {
    let mut record = row_record();
    let found = record.with_temp_placements(Stone::Black, &[p(4, 0)], |r| {
        r.find_winning_row(p(0, 0))
    });
    assert_eq!(found, Some((p(5, 0), Direction::West)));
    assert_eq!(record.stone_at(p(4, 0)), None);
    assert_eq!(record.find_winning_row(p(0, 0)), None);
}

#[test]
fn moves_compare_as_the_same_move() {
    assert_eq!(Move::Place(p(1, 2), Some(p(3, 4))), Move::Place(p(3, 4), Some(p(1, 2))));
    assert_ne!(Move::Place(p(1, 2), Some(p(3, 4))), Move::Place(p(1, 2), None));
    assert_eq!(Move::Win(p(0, 0), Direction::East), Move::Win(p(5, 0), Direction::West));
    assert_ne!(Move::Win(p(0, 0), Direction::East), Move::Win(p(5, 0), Direction::East));
    assert_ne!(Move::Resign(Stone::Black), Move::Resign(Stone::White));
    assert!(Move::Draw.is_ending());
    assert!(!Move::Pass.is_ending());
}

#[test]
fn plain_move_bytes() {
    let cases: [(Move, bool, Vec<u8>); 7] = [
        (Move::Pass, false, vec![0]),
        (Move::Draw, false, vec![2]),
        (Move::Resign(Stone::White), false, vec![3, 1]),
        (Move::Win(p(0, 0), Direction::East), false, vec![1, 0, 2]),
        (Move::Place(p(1, 0), None), false, vec![13, 0]),
        (Move::Place(p(1, 0), None), true, vec![13]),
        (Move::Place(p(1, 0), Some(p(0, 1))), false, vec![13, 11]),
    ];
    for (mov, compact, bytes) in cases {
        let mut buf = vec![];
        mov.encode(&mut buf, compact);
        assert_eq!(buf, bytes);
        let mut slice = &buf[..];
        assert_eq!(Move::decode(&mut slice, compact), Some(mov));
        assert!(slice.is_empty());
    }
    let mut bad: &[u8] = &[5];
    assert_eq!(Move::decode(&mut bad, false), None);
    let mut bad: &[u8] = &[13, 4];
    assert_eq!(Move::decode(&mut bad, false), None);
}

#[test]
fn plain_record_bytes() {
    let mut record = Record::new();
    assert!(record.make_move(Move::Place(p(0, 0), None)));
    assert_eq!(record.encode_to_vec(RecordEncodingScheme::past()), vec![0x00, 0x07]);
    assert_eq!(record.encode_to_vec(RecordEncodingScheme::all()), vec![0x01, 0x01, 0x07]);
    assert_eq!(RecordEncodingScheme::all().delta().as_u8(), 3);
    assert_eq!(RecordEncodingScheme::from_u8(2), Some(RecordEncodingScheme::past().delta()));
    assert_eq!(RecordEncodingScheme::from_u8(4), None);
}

#[test]
fn record_decode_errors() {
    assert_eq!(Record::decode(&mut &[][..]), None);
    assert_eq!(Record::decode(&mut &[0x04][..]), None);
    // A second stone on an occupied point.
    assert_eq!(Record::decode(&mut &[0x00, 0x07, 0x07, 0x00][..]), None);
    // An index beyond the moves.
    assert_eq!(Record::decode(&mut &[0x01, 0x05, 0x07][..]), None);
}

#[test]
fn records_read_back_in_every_scheme() {
    let mut record = Record::new();
    assert!(record.make_move(Move::Place(p(0, 0), None)));
    assert!(record.make_move(Move::Place(p(3, -2), Some(p(-1, 4)))));
    assert!(record.make_move(Move::Place(p(7, 7), None)));
    assert!(record.make_move(Move::Pass));
    assert!(record.make_move(Move::Place(p(0x3fff, 0x3fff), Some(p(-0x3fff, -0x3fff)))));
    assert!(record.undo_move().is_some());
    for scheme in [
        RecordEncodingScheme::past(),
        RecordEncodingScheme::all(),
        RecordEncodingScheme::past().delta(),
        RecordEncodingScheme::all().delta(),
    ] {
        let buf = record.encode_to_vec(scheme);
        let mut slice = &buf[..];
        let decoded = Record::decode(&mut slice).unwrap();
        assert!(slice.is_empty());
        assert_eq!(decoded.move_index(), record.move_index());
        let n = if scheme.all { record.moves().len() } else { record.move_index() };
        assert_eq!(decoded.moves(), &record.moves()[..n]);
        for q in [p(0, 0), p(3, -2), p(-1, 4), p(7, 7), p(1, 1)] {
            assert_eq!(decoded.stone_at(q), record.stone_at(q));
        }
    }
}

#[test]
fn delta_record_keeps_leading_origin_stone() {
    let mut record = Record::new();
    assert!(record.make_move(Move::Place(p(0, 0), None)));
    assert!(record.make_move(Move::Place(p(1, 0), Some(p(0, 1)))));
    let buf = record.encode_to_vec(RecordEncodingScheme::past().delta());
    let decoded = Record::decode(&mut &buf[..]).unwrap();
    assert_eq!(decoded.moves(), record.moves());
    assert_eq!(decoded.stone_at(p(0, 0)), Some(Stone::Black));
}

#[test]
fn undo_restores_the_board_and_redo_the_record() {
    let points = [p(0, 0), p(1, 1), p(2, 2), p(3, 3)];
    let mut record = Record::new();
    assert!(record.make_move(Move::Place(p(0, 0), None)));
    let board: Vec<Option<Stone>> = points.iter().map(|&q| record.stone_at(q)).collect();
    let index = record.move_index();

    assert!(record.make_move(Move::Place(p(1, 1), Some(p(2, 2)))));
    assert_eq!(record.stone_at(p(2, 2)), Some(Stone::White));
    assert!(record.undo_move().is_some());
    let after: Vec<Option<Stone>> = points.iter().map(|&q| record.stone_at(q)).collect();
    assert_eq!(after, board);
    assert_eq!(record.move_index(), index);

    assert!(record.redo_move().is_some());
    assert_eq!(record.stone_at(p(1, 1)), Some(Stone::White));
    assert_eq!(record.stone_at(p(2, 2)), Some(Stone::White));
    assert_eq!(record.move_index(), 2);
}

#[test]
fn clearing_the_future_keeps_the_past() {
    let mut record = Record::new();
    assert!(record.make_move(Move::Place(p(0, 0), None)));
    assert!(record.make_move(Move::Pass));
    assert!(record.make_move(Move::Pass));
    assert!(record.jump(1));
    record.clear_future();
    assert_eq!(record.moves(), &[Move::Place(p(0, 0), None)]);
    assert_eq!(record.move_index(), 1);
    assert_eq!(record.stone_at(p(0, 0)), Some(Stone::Black));
    assert!(!record.has_future());
}

#[test]
fn first_byte_names_the_scheme() {
    let mut record = Record::new();
    assert!(record.make_move(Move::Place(p(0, 0), None)));
    assert!(record.make_move(Move::Place(p(1, 0), Some(p(2, 0)))));
    assert!(record.undo_move().is_some());
    for all in [false, true] {
        for delta in [false, true] {
            let scheme = RecordEncodingScheme { all, delta };
            let mut buf = vec![0xAA];
            record.encode(&mut buf, scheme);
            assert_eq!(buf[0], 0xAA);
            assert_eq!(&buf[1..], record.encode_to_vec(scheme).as_slice());
            if delta {
                assert_eq!(buf[1] % 16, scheme.as_u8());
            } else {
                assert_eq!(buf[1], scheme.as_u8());
            }
        }
    }
}
