//! Moves.
use super::direction::{Direction, Stone};
use super::point::Point;
use vstd::prelude::*;

verus! {

/// A move made by one player or both players.
#[derive(Clone, Copy, Debug)]
pub enum Move {
    /// One or two stones placed on the board by the current player.
    Place(Point, Option<Point>),
    /// A pass made by the current player.
    Pass,
    /// A winning row claimed by any player.
    Win(Point, Direction),
    /// A draw agreed by both players.
    Draw,
    /// A resignation indicated by the player with the given stone.
    Resign(Stone),
}

/// The point `j` steps from `p` in direction `d`, if it is on the board.
pub open spec fn step(p: Point, d: Direction, j: int) -> Option<Point> {
    let x = p.x + d.dx() * j;
    let y = p.y + d.dy() * j;
    if i16::MIN <= x <= i16::MAX && i16::MIN <= y <= i16::MAX {
        Some(Point { x: x as i16, y: y as i16 })
    } else {
        None
    }
}

impl Move {
    /// Whether the move ends the game.
    pub open spec fn ending(self) -> bool {
        self is Win || self is Draw || self is Resign
    }

    /// Whether two moves are the same: the stones of a two-stone move in
    /// either order, and a winning row from either of its ends.
    pub open spec fn same_as(self, other: Move) -> bool {
        match (self, other) {
            (Move::Place(p1, None), Move::Place(p2, None)) => p1 == p2,
            (Move::Place(p11, Some(p21)), Move::Place(p12, Some(p22))) => (p11 == p12 && p21
                == p22) || (p11 == p22 && p21 == p12),
            (Move::Pass, Move::Pass) => true,
            (Move::Win(p1, d1), Move::Win(p2, d2)) => (p1 == p2 && d1 == d2) || (step(p1, d1, 5)
                == Some(p2) && d1.reversed() == d2),
            (Move::Draw, Move::Draw) => true,
            (Move::Resign(s1), Move::Resign(s2)) => s1 == s2,
            _ => false,
        }
    }

    /// Tests if the move is an ending one.
    pub fn is_ending(self) -> (r: bool)
        ensures
            r == self.ending(),
    {
        match self {
            Move::Win(..) | Move::Draw | Move::Resign(_) => true,
            _ => false,
        }
    }

    /// Tests if two moves are the same (see `same_as`).
    pub fn same(&self, other: &Move) -> (r: bool)
        ensures
            r == self.same_as(*other),
    {
        match (*self, *other) {
            (Move::Place(p1, None), Move::Place(p2, None)) => p1 == p2,
            (Move::Place(p11, Some(p21)), Move::Place(p12, Some(p22))) => {
                (p11 == p12 && p21 == p22) || (p11 == p22 && p21 == p12)
            },
            (Move::Pass, Move::Pass) => true,
            (Move::Win(p1, d1), Move::Win(p2, d2)) => {
                if p1 == p2 && d1 == d2 {
                    true
                } else {
                    match p1.checked_add(d1.offset(5)) {
                        Some(q) => q == p2 && d1.opposite() == d2,
                        None => false,
                    }
                }
            },
            (Move::Draw, Move::Draw) => true,
            (Move::Resign(s1), Move::Resign(s2)) => s1 == s2,
            _ => false,
        }
    }
}

impl PartialEq for Move {
    fn eq(&self, other: &Self) -> (r: bool) {
        self.same(other)
    }
}

impl vstd::std_specs::cmp::PartialEqSpecImpl for Move {
    open spec fn obeys_eq_spec() -> bool {
        true
    }

    open spec fn eq_spec(&self, other: &Move) -> bool {
        self.same_as(*other)
    }
}

impl Eq for Move {

}

/// Reversing a direction negates its unit vector, and reversing twice
/// gives the direction back.
pub proof fn lemma_reversed(d: Direction)
    ensures
        d.reversed().reversed() == d,
        d.reversed().dx() == -d.dx(),
        d.reversed().dy() == -d.dy(),
        d.reversed().canonical() != d.canonical(),
{
    match d {
        Direction::North => {},
        Direction::Northeast => {},
        Direction::East => {},
        Direction::Southeast => {},
        Direction::South => {},
        Direction::Southwest => {},
        Direction::West => {},
        Direction::Northwest => {},
    }
}

/// `same_as` is reflexive.
pub proof fn lemma_same_as_reflexive(a: Move)
    ensures
        a.same_as(a),
{
}

/// `same_as` is symmetric.
pub proof fn lemma_same_as_symmetric(a: Move, b: Move)
    requires
        a.same_as(b),
    ensures
        b.same_as(a),
{
    if let Move::Win(p, d) = a {
        if let Move::Win(q, e) = b {
            lemma_reversed(d);
            lemma_reversed(e);
        }
    }
}

/// `same_as` is transitive.
pub proof fn lemma_same_as_transitive(a: Move, b: Move, c: Move)
    requires
        a.same_as(b),
        b.same_as(c),
    ensures
        a.same_as(c),
{
    if let Move::Win(p, d) = a {
        if let Move::Win(q, e) = b {
            if let Move::Win(r, f) = c {
                lemma_reversed(d);
                lemma_reversed(e);
            }
        }
    }
}

} // verus!
