use c6ol_core::codec::isqrt_u32;
use c6ol_core::game::{Direction, Point};

#[test]
fn point_index_values() {
    assert_eq!(Point::new(0, 0).index(), 0);
    assert_eq!(Point::new(0, -1).index(), 1);
    assert_eq!(Point::new(-1, 0).index(), 2);
    assert_eq!(Point::new(0, 1).index(), 4);
    assert_eq!(Point::new(1, 0).index(), 6);
    assert_eq!(Point::new(-32768, -32768).index(), u32::MAX);
}

#[test]
fn point_index_roundtrip() {
    for p in [
        Point::new(0, 0),
        Point::new(1, -1),
        Point::new(-7, 300),
        Point::new(i16::MAX, i16::MIN),
        Point::new(i16::MIN, i16::MIN),
        Point::new(0x3fff, -0x3fff),
    ] {
        assert_eq!(Point::from_index(p.index()), p);
    }
    for i in [0u32, 1, 2, 3, 1000, 65535, 65536, 0x7fff_ffff, u32::MAX] {
        assert_eq!(Point::from_index(i).index(), i);
    }
}

#[test]
fn d4_centrosymmetric_index_values() {
    assert_eq!(Point::new(0, 0).d4_centrosymmetric_index(), 0);
    assert_eq!(Point::new(0, 1).d4_centrosymmetric_index(), 1);
    assert_eq!(Point::new(0, -1).d4_centrosymmetric_index(), 1);
    assert_eq!(Point::new(1, 0).d4_centrosymmetric_index(), 2);
    assert_eq!(Point::new(1, -1).d4_centrosymmetric_index(), 3);
    assert_eq!(Point::new(1, 1).d4_centrosymmetric_index(), 4);
    assert_eq!(Point::new(-1, -1).d4_centrosymmetric_index(), 4);
    assert_eq!(Point::from_d4_centrosymmetric_index(1), Some(Point::new(0, 1)));
    assert_eq!(Point::from_d4_centrosymmetric_index(2), Some(Point::new(1, 0)));
    assert_eq!(Point::from_d4_centrosymmetric_index(4), Some(Point::new(1, 1)));
    let max = 2 * 0x8000 * 0x8000 - 2 * 0x8000;
    assert!(Point::from_d4_centrosymmetric_index(max).is_some());
    assert_eq!(Point::from_d4_centrosymmetric_index(max + 1), None);
}

#[test]
fn d4_index_values_and_roundtrip() {
    assert_eq!(Point::new(0, 0).d4_index(), 0);
    assert_eq!(Point::new(0, -1).d4_index(), 1);
    assert_eq!(Point::new(0, 1).d4_index(), 2);
    assert_eq!(Point::from_d4_index(1), Some(Point::new(0, -1)));
    assert_eq!(Point::from_d4_index(2), Some(Point::new(0, 1)));
    for p in [
        Point::new(5, -3),
        Point::new(-0x7fff, 0x7fff),
        Point::new(0x7fff, -0x7fff),
        Point::new(-1, 0),
    ] {
        assert_eq!(Point::from_d4_index(p.d4_index()), Some(p));
    }
    let max = 2 * 0x8000 * 0x8000 - 2 * 0x8000u32;
    assert!(Point::from_d4_index(2 * max).is_some());
    assert_eq!(Point::from_d4_index(2 * max + 1), None);
}

#[test]
fn point_arithmetic() {
    assert_eq!(Point::new(1, 2) + Point::new(3, -4), Point::new(4, -2));
    assert_eq!(Point::new(1, 2) - Point::new(3, -4), Point::new(-2, 6));
    assert_eq!(Point::new(i16::MAX, 0).checked_add(Point::new(1, 0)), None);
    assert_eq!(Point::new(i16::MIN, 0).checked_sub(Point::new(0, 1)), Some(Point::new(i16::MIN, -1)));
    assert_eq!(Point::new(i16::MIN, 0).checked_sub(Point::new(1, 0)), None);
    assert_eq!(Point::new(-1, 0).midpoint_floor(Point::new(0, 0)), Point::new(-1, 0));
    assert_eq!(Point::new(3, 4).midpoint_floor(Point::new(0, 1)), Point::new(1, 2));
    assert_eq!(Point::new(-3, 3).half_ceil(), Point::new(-1, 2));
    assert_eq!(Point::new(i16::MIN, i16::MAX).half_ceil(), Point::new(-16384, 16384));
}

#[test]
fn point_varint_encoding() {
    let mut buf = vec![];
    Point::new(1, 0).encode(&mut buf);
    assert_eq!(buf, vec![6]);
    buf.clear();
    Point::new(-32768, -32768).encode(&mut buf);
    assert_eq!(buf, vec![0xFF, 0xFF, 0xFF, 0xFF, 0x0F]);
    let mut slice = &buf[..];
    assert_eq!(Point::decode(&mut slice), Some(Point::new(-32768, -32768)));
    assert!(slice.is_empty());
    let mut truncated: &[u8] = &[0x80];
    assert_eq!(Point::decode(&mut truncated), None);
}

#[test]
fn adjacent_points() {
    let p = Point::new(0, 0);
    assert_eq!(p.adjacent_iter(Direction::East, 0), Some(Point::new(1, 0)));
    assert_eq!(p.adjacent_iter(Direction::Northwest, 2), Some(Point::new(-3, -3)));
    assert_eq!(Point::new(i16::MAX, 0).adjacent_iter(Direction::East, 0), None);
}

#[test]
fn directions() {
    assert_eq!(Direction::from_u8(2), Some(Direction::East));
    assert_eq!(Direction::from_u8(8), None);
    assert!(Direction::North.is_canonical());
    assert!(!Direction::South.is_canonical());
    assert_eq!(Direction::Northeast.opposite(), Direction::Southwest);
    assert_eq!(Direction::from_unit_vec(Point::new(1, -1)), Some(Direction::Northeast));
    assert_eq!(Direction::from_unit_vec(Point::new(2, 0)), None);
    assert_eq!(Direction::Southwest.offset(3), Point::new(-3, 3));
    assert_eq!(
        Direction::values_canonical(),
        [Direction::North, Direction::Northeast, Direction::East, Direction::Southeast]
    );
}

#[test]
fn integer_square_roots() {
    for n in [0u32, 1, 2, 3, 4, 15, 16, 17, 99, 100, 65_535, 65_536, u32::MAX - 1, u32::MAX] {
        assert_eq!(isqrt_u32(n), n.isqrt(), "{n}");
    }
}
