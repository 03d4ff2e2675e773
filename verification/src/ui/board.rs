//! What hitting a position on the board selects.
//!
//! Hitting an empty position puts a phantom stone there if there are not
//! enough tentative stones for this turn. Hitting a phantom stone makes it
//! tentative. Hitting a tentative stone makes it phantom. When there are
//! enough tentative stones, the move is ready to be submitted. While a win
//! is being claimed, hits pick the row instead: its first end, then a
//! position along it that must be the other end.
use super::calc::{fits_i16, in_view_of, Calc};
use crate::game::record::{ended, placements, turn_spec, winning_row_end};
use crate::game::{Direction, Point, Record, Stone};
use vstd::prelude::*;

verus! {

/// The progress of claiming a winning row.
#[derive(Clone, Copy, Debug, Eq, PartialEq, Structural)]
pub enum WinClaim {
    /// Waiting for the first end of the row.
    PendingPoint,
    /// The first end is picked; waiting for the other end.
    PendingDirection(Point),
    /// The row from the point in the direction is picked.
    Ready(Point, Direction),
}

/// What the player has picked on the board.
pub struct Selection {
    /// A position hit once, shown as a phantom stone.
    pub phantom: Option<Point>,
    /// The positions of the stones to place this turn, at most two.
    pub tentatives: Vec<Point>,
    /// The progress of a win claim, if one is being made.
    pub win_claim: Option<WinClaim>,
}

/// The sign of an integer.
pub open spec fn sign(v: int) -> int {
    if v > 0 {
        1
    } else if v < 0 {
        -1
    } else {
        0
    }
}

/// The number of stones to play in the current turn of a record.
pub open spec fn stones_to_play(r: Record) -> int {
    if r.at() == 0 {
        1
    } else if !ended(r.past()) {
        2
    } else {
        0
    }
}

/// Whether the player with `stone` is to play in the record.
pub open spec fn our_turn(r: Record, stone: Option<Stone>) -> bool {
    stone matches Some(s) && !ended(r.past()) && turn_spec(r.at() as int) == s
}

/// Whether the row from `p` in direction `d` ends at `cursor` once the
/// tentative stones are placed with `stone`.
pub open spec fn row_ends_at(
    r: Record,
    stone: Stone,
    tentatives: Seq<Point>,
    p: Point,
    d: Direction,
    cursor: Point,
) -> bool {
    winning_row_end(r.stones().union_prefer_right(placements(tentatives, stone)), p, d) == Some(
        cursor,
    )
}

/// Whether the row from `p` in direction `d` on board `b` ends at `cursor`.
pub open spec fn row_ends_here(b: Map<Point, Stone>, p: Point, d: Direction, cursor: Point) -> bool {
    winning_row_end(b, p, d) == Some(cursor)
}

/// Whether the row from `p` in direction `dir` ends at `cursor`.
fn ends_at(rec: &Record, p: Point, dir: Direction, cursor: Point) -> (r: bool)
    ensures
        r == row_ends_here(rec.stones(), p, dir, cursor),
{
    match rec.test_winning_row(p, dir) {
        Some(q) => q == cursor,
        None => false,
    }
}

/// The sign of `v`.
fn signum(v: i16) -> (r: i16)
    ensures
        r == sign(v as int),
{
    if v > 0 {
        1
    } else if v < 0 {
        -1
    } else {
        0
    }
}

/// The first index of `p` in `v`, if any.
fn position_of(v: &Vec<Point>, p: Point) -> (r: Option<usize>)
    ensures
        match r {
            Some(i) => v@.index_of_first(p) == Some(i as int) && i < v@.len() && v@[i as int] == p,
            None => !v@.contains(p) && v@.index_of_first(p) is None,
        },
{
    let mut i: usize = 0;
    while i < v.len()
        invariant
            i <= v@.len(),
            forall|j: int| 0 <= j < i ==> v@[j] != p,
        decreases v@.len() - i,
    {
        if v[i] == p {
            proof {
                v@.index_of_first_ensures(p);
                match v@.index_of_first(p) {
                    Some(k) => {
                        assert(!(k < i));
                        assert(!(i < k));
                    },
                    None => {
                        assert(v@.contains(p));
                    },
                }
            }
            return Some(i);
        }
        i += 1;
    }
    proof {
        v@.index_of_first_ensures(p);
    }
    None
}

impl Selection {
    /// Nothing picked.
    pub fn new() -> (r: Self)
        ensures
            r.phantom is None,
            r.tentatives@ == Seq::<Point>::empty(),
            r.win_claim is None,
    {
        Selection { phantom: None, tentatives: Vec::new(), win_claim: None }
    }

    /// Drops what was picked, as when the record or the player's stone
    /// changes.
    pub fn clear(&mut self)
        ensures
            final(self).phantom is None,
            final(self).tentatives@ == Seq::<Point>::empty(),
            final(self).win_claim is None,
    {
        self.phantom = None;
        self.tentatives.clear();
        self.win_claim = None;
    }

    /// The tentative positions are distinct and free in the record.
    pub open spec fn free_in(&self, r: Record) -> bool {
        &&& self.tentatives@.no_duplicates()
        &&& forall|i: int|
            0 <= i < self.tentatives@.len() ==> !r.stones().contains_key(
                #[trigger] self.tentatives@[i],
            )
    }

    /// Whether two selections pick the same.
    pub open spec fn same(&self, other: &Selection) -> bool {
        &&& self.phantom == other.phantom
        &&& self.tentatives@ == other.tentatives@
        &&& self.win_claim == other.win_claim
    }

    /// Hits the board position `cursor` as the player with `stone` (if
    /// any) in the view of `calc`; `phantom_disabled` skips phantom stones.
    ///
    /// Returns whether the move is now ready to be submitted. The record
    /// is the same afterwards.
    #[verifier::spinoff_prover]
    pub fn hit_cursor(
        &mut self,
        record: &mut Record,
        calc: &Calc,
        stone: Option<Stone>,
        phantom_disabled: bool,
        cursor: Point,
    ) -> (submit: bool)
        requires
            old(record).wf(),
            calc.wf(),
            calc.to_view_fits(cursor.x as int, calc.view_center.x as int),
            calc.to_view_fits(cursor.y as int, calc.view_center.y as int),
            old(self).free_in(*old(record)),
            old(self).win_claim matches Some(WinClaim::PendingDirection(p)) ==> fits_i16(
                cursor.x - p.x,
            ) && fits_i16(cursor.y - p.y),
            old(self).phantom == Some(cursor) && !old(self).tentatives@.contains(cursor)
                ==> old(self).tentatives@.len() < 2,
        ensures
            final(record)@ == old(record)@,
            final(record).wf(),
            final(self).free_in(*final(record)),
            !in_view_of(*calc, cursor) ==> final(self).same(old(self)) && !submit,
            in_view_of(*calc, cursor) && old(self).win_claim is Some ==> {
                &&& final(self).phantom == old(self).phantom
                &&& final(self).tentatives@ == old(self).tentatives@
                &&& match (stone, old(self).win_claim) {
                    (None, _) => final(self).win_claim == old(self).win_claim && !submit,
                    (Some(s), Some(WinClaim::PendingDirection(p))) => {
                        let vx = sign(cursor.x - p.x);
                        let vy = sign(cursor.y - p.y);
                        if exists|d: Direction| d.dx() == vx && d.dy() == vy {
                            exists|d: Direction|
                                #![trigger d.dx(), d.dy()]
                                d.dx() == vx && d.dy() == vy && if row_ends_at(
                                    *old(record),
                                    s,
                                    old(self).tentatives@,
                                    p,
                                    d,
                                    cursor,
                                ) {
                                    final(self).win_claim == Some(WinClaim::Ready(p, d)) && submit
                                } else {
                                    final(self).win_claim == Some(
                                        WinClaim::PendingDirection(cursor),
                                    ) && !submit
                                }
                        } else {
                            final(self).win_claim == old(self).win_claim && !submit
                        }
                    },
                    _ => final(self).win_claim == Some(WinClaim::PendingDirection(cursor))
                        && !submit,
                }
            },
            in_view_of(*calc, cursor) && old(self).win_claim is None && !(our_turn(
                *old(record),
                stone,
            ) && !old(record).stones().contains_key(cursor)) ==> final(self).same(old(self))
                && !submit,
            in_view_of(*calc, cursor) && old(self).win_claim is None && our_turn(*old(record), stone)
                && !old(record).stones().contains_key(cursor) ==> {
                let t = old(self).tentatives@;
                let m = stones_to_play(*old(record));
                &&& final(self).win_claim is None
                &&& if t.contains(cursor) {
                    &&& final(self).tentatives@ == t.remove_value(cursor)
                    &&& final(self).phantom == (if phantom_disabled {
                        old(self).phantom
                    } else {
                        Some(cursor)
                    })
                    &&& !submit
                } else if phantom_disabled || old(self).phantom == Some(cursor) {
                    if phantom_disabled && t.len() >= m {
                        final(self).same(old(self)) && !submit
                    } else {
                        &&& final(self).tentatives@ == t.push(cursor)
                        &&& final(self).phantom == (if phantom_disabled {
                            old(self).phantom
                        } else {
                            None
                        })
                        &&& submit == (t.len() + 1 == m)
                    }
                } else if t.len() < m {
                    final(self).phantom == Some(cursor) && final(self).tentatives@ == t
                        && !submit
                } else {
                    final(self).same(old(self)) && !submit
                }
            },
    {
        if calc.board_to_view_pos(cursor).is_none() {
            return false;
        }
        match self.win_claim {
            Some(claim) => {
                let s = match stone {
                    Some(s) => s,
                    None => return false,
                };
                let new_claim = match claim {
                    WinClaim::PendingDirection(p) => {
                        let v = Point::new(signum(cursor.x - p.x), signum(cursor.y - p.y));
                        let dir = match Direction::from_unit_vec(v) {
                            Some(d) => d,
                            None => return false,
                        };
                        let ghost before = *record;
                        let found = record.with_temp_placements(
                            s,
                            self.tentatives.as_slice(),
                            |rec: &Record| -> (found: bool)
                                ensures found == row_ends_here(rec.stones(), p, dir, cursor)
                                { ends_at(rec, p, dir, cursor) },
                        );
                        proof {
                            assert(record@ == before@);
                        }
                        if found {
                            WinClaim::Ready(p, dir)
                        } else {
                            WinClaim::PendingDirection(cursor)
                        }
                    },
                    _ => WinClaim::PendingDirection(cursor),
                };
                self.win_claim = Some(new_claim);
                match new_claim {
                    WinClaim::Ready(..) => true,
                    _ => false,
                }
            },
            None => {
                let turn = record.turn();
                let our = match (stone, turn) {
                    (Some(a), Some(b)) => a == b,
                    _ => false,
                };
                if !our || record.stone_at(cursor).is_some() {
                    return false;
                }
                let max = record.max_stones_to_play();
                let pos = position_of(&self.tentatives, cursor);
                if phantom_disabled {
                    match pos {
                        Some(i) => {
                            self.tentatives.remove(i);
                            false
                        },
                        None => {
                            if self.tentatives.len() < max {
                                self.tentatives.push(cursor);
                                self.tentatives.len() == max
                            } else {
                                false
                            }
                        },
                    }
                } else {
                    match pos {
                        Some(i) => {
                            let q = self.tentatives.remove(i);
                            self.phantom = Some(q);
                            false
                        },
                        None => {
                            if self.phantom == Some(cursor) {
                                self.phantom = None;
                                self.tentatives.push(cursor);
                                self.tentatives.len() == max
                            } else {
                                if self.tentatives.len() < max {
                                    self.phantom = Some(cursor);
                                }
                                false
                            }
                        },
                    }
                }
            },
        }
    }
}

} // verus!
