//! Directions on the board and stone colours.
use super::point::Point;
use vstd::prelude::*;

verus! {

/// A direction on the board.
#[derive(Clone, Copy, Debug, Eq, PartialEq, Structural)]
pub enum Direction {
    /// North, with a unit vector of `(0, -1)`.
    North,
    /// Northeast, with a unit vector of `(1, -1)`.
    Northeast,
    /// East, with a unit vector of `(1, 0)`.
    East,
    /// Southeast, with a unit vector of `(1, 1)`.
    Southeast,
    /// South, with a unit vector of `(0, 1)`.
    South,
    /// Southwest, with a unit vector of `(-1, 1)`.
    Southwest,
    /// West, with a unit vector of `(-1, 0)`.
    West,
    /// Northwest, with a unit vector of `(-1, -1)`.
    Northwest,
}

impl Direction {
    /// The number of a direction, counted clockwise from north.
    pub open spec fn value(self) -> u8 {
        match self {
            Direction::North => 0,
            Direction::Northeast => 1,
            Direction::East => 2,
            Direction::Southeast => 3,
            Direction::South => 4,
            Direction::Southwest => 5,
            Direction::West => 6,
            Direction::Northwest => 7,
        }
    }

    /// The direction with the given number, if it is below 8.
    pub open spec fn from_value(n: u8) -> Option<Direction> {
        if n == 0 {
            Some(Direction::North)
        } else if n == 1 {
            Some(Direction::Northeast)
        } else if n == 2 {
            Some(Direction::East)
        } else if n == 3 {
            Some(Direction::Southeast)
        } else if n == 4 {
            Some(Direction::South)
        } else if n == 5 {
            Some(Direction::Southwest)
        } else if n == 6 {
            Some(Direction::West)
        } else if n == 7 {
            Some(Direction::Northwest)
        } else {
            None
        }
    }

    /// East-west component of the unit vector.
    pub open spec fn dx(self) -> int {
        match self {
            Direction::North | Direction::South => 0,
            Direction::Northeast | Direction::East | Direction::Southeast => 1,
            _ => -1,
        }
    }

    /// North-south component of the unit vector.
    pub open spec fn dy(self) -> int {
        match self {
            Direction::East | Direction::West => 0,
            Direction::Southeast | Direction::South | Direction::Southwest => 1,
            _ => -1,
        }
    }

    /// Whether a direction is one of the first four.
    pub open spec fn canonical(self) -> bool {
        self.value() < 4
    }

    /// The direction pointing the other way.
    pub open spec fn reversed(self) -> Direction {
        Direction::from_value(((self.value() + 4) % 8) as u8).unwrap()
    }

    /// The four canonical directions, in order.
    pub fn values_canonical() -> (r: [Direction; 4])
        ensures
            r@ == seq![Direction::North, Direction::Northeast, Direction::East, Direction::Southeast],
    {
        [Direction::North, Direction::Northeast, Direction::East, Direction::Southeast]
    }

    /// Creates a direction from a `u8`.
    pub fn from_u8(n: u8) -> (r: Option<Self>)
        ensures
            r == Direction::from_value(n),
            r is Some <==> n < 8,
            r matches Some(d) ==> d.value() == n,
    {
        match n {
            0 => Some(Direction::North),
            1 => Some(Direction::Northeast),
            2 => Some(Direction::East),
            3 => Some(Direction::Southeast),
            4 => Some(Direction::South),
            5 => Some(Direction::Southwest),
            6 => Some(Direction::West),
            7 => Some(Direction::Northwest),
            _ => None,
        }
    }

    /// Returns the number of this direction, counted clockwise from north.
    pub fn as_u8(self) -> (r: u8)
        ensures
            r == self.value(),
            r < 8,
            Direction::from_value(r) == Some(self),
    {
        match self {
            Direction::North => 0,
            Direction::Northeast => 1,
            Direction::East => 2,
            Direction::Southeast => 3,
            Direction::South => 4,
            Direction::Southwest => 5,
            Direction::West => 6,
            Direction::Northwest => 7,
        }
    }

    /// Checks if this direction is canonical, with value less than 4.
    pub fn is_canonical(self) -> (r: bool)
        ensures
            r == self.canonical(),
    {
        self.as_u8() < 4
    }

    /// Returns the opposite direction.
    pub fn opposite(self) -> (r: Self)
        ensures
            r == self.reversed(),
            r.dx() == -self.dx(),
            r.dy() == -self.dy(),
            r.canonical() != self.canonical(),
            r.reversed() == self,
    {
        match self {
            Direction::North => Direction::South,
            Direction::Northeast => Direction::Southwest,
            Direction::East => Direction::West,
            Direction::Southeast => Direction::Northwest,
            Direction::South => Direction::North,
            Direction::Southwest => Direction::Northeast,
            Direction::West => Direction::East,
            Direction::Northwest => Direction::Southeast,
        }
    }

    /// Creates a direction from a unit vector.
    pub fn from_unit_vec(v: Point) -> (r: Option<Self>)
        ensures
            r matches Some(d) ==> d.dx() == v.x && d.dy() == v.y,
            r is None ==> forall|d: Direction| !(d.dx() == v.x && d.dy() == v.y),
    {
        let r = match (v.x, v.y) {
            (0, -1) => Some(Direction::North),
            (1, -1) => Some(Direction::Northeast),
            (1, 0) => Some(Direction::East),
            (1, 1) => Some(Direction::Southeast),
            (0, 1) => Some(Direction::South),
            (-1, 1) => Some(Direction::Southwest),
            (-1, 0) => Some(Direction::West),
            (-1, -1) => Some(Direction::Northwest),
            _ => None,
        };
        proof {
            if r is None {
                assert forall|d: Direction| !(d.dx() == v.x && d.dy() == v.y) by {
                    match d {
                        Direction::North => {},
                        Direction::Northeast => {},
                        Direction::East => {},
                        Direction::Southeast => {},
                        Direction::South => {},
                        Direction::Southwest => {},
                        Direction::West => {},
                        Direction::Northwest => {},
                    }
                }
            }
        }
        r
    }

    /// Returns an offset of `n` units in this direction.
    ///
    /// A direction with a negative component needs `-n`, which exists
    /// for every `n` but `i16::MIN`.
    pub fn offset(self, n: i16) -> (r: Point)
        requires
            (self.dx() < 0 || self.dy() < 0) ==> n != i16::MIN,
        ensures
            r.x == self.dx() * n,
            r.y == self.dy() * n,
    {
        let (x, y): (i16, i16) = match self {
            Direction::North => (0, -n),
            Direction::Northeast => (n, -n),
            Direction::East => (n, 0),
            Direction::Southeast => (n, n),
            Direction::South => (0, n),
            Direction::Southwest => (-n, n),
            Direction::West => (-n, 0),
            Direction::Northwest => (-n, -n),
        };
        Point::new(x, y)
    }
}

/// A stone on the board, either black or white.
#[derive(Clone, Copy, Debug, Eq, PartialEq, Structural)]
pub enum Stone {
    /// The black stone.
    Black,
    /// The white stone.
    White,
}

impl Stone {
    /// The number of a stone: 0 for black, 1 for white.
    pub open spec fn value(self) -> u8 {
        match self {
            Stone::Black => 0,
            Stone::White => 1,
        }
    }

    /// The stone of the other player.
    pub open spec fn other(self) -> Stone {
        match self {
            Stone::Black => Stone::White,
            Stone::White => Stone::Black,
        }
    }

    /// Creates a stone from a `u8`.
    pub fn from_u8(n: u8) -> (r: Option<Self>)
        ensures
            n == 0 ==> r == Some(Stone::Black),
            n == 1 ==> r == Some(Stone::White),
            n > 1 ==> r is None,
            r matches Some(s) ==> s.value() == n,
    {
        match n {
            0 => Some(Stone::Black),
            1 => Some(Stone::White),
            _ => None,
        }
    }

    /// Returns the number of the stone: 0 for black, 1 for white.
    pub fn as_u8(self) -> (r: u8)
        ensures
            r == self.value(),
    {
        match self {
            Stone::Black => 0,
            Stone::White => 1,
        }
    }

    /// Returns the opposite stone.
    pub fn opposite(self) -> (r: Self)
        ensures
            r == self.other(),
            r != self,
            r.other() == self,
    {
        match self {
            Stone::Black => Stone::White,
            Stone::White => Stone::Black,
        }
    }
}

} // verus!
