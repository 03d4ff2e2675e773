//! Conversions between board positions and positions in the view.
//!
//! The view is a square of `view_size` by `view_size` positions, numbered
//! from 1 in each axis, centred on a board position; positions 0 and
//! `view_size + 1` form its border.
use crate::game::Point;
use vstd::prelude::*;

verus! {

/// Whether an integer fits in an `i16`.
pub open spec fn fits_i16(v: int) -> bool {
    i16::MIN <= v <= i16::MAX
}

/// The area a position is restricted to.
#[derive(Clone, Copy, Debug, Eq, PartialEq, Structural)]
pub enum ClampTo {
    /// The view itself.
    Inside,
    /// The view and its border.
    InsideAndBorder,
}

/// Which way to zoom.
#[derive(Clone, Copy, Debug, Eq, PartialEq, Structural)]
pub enum Zoom {
    /// Show more of the board.
    Out,
    /// Show less of the board.
    In,
}

/// A converter between board and view positions.
#[derive(Clone, Copy, Debug, Eq, PartialEq, Structural)]
pub struct Calc {
    /// The side of the view, at least 1.
    pub view_size: i16,
    /// The board position at the centre of the view.
    pub view_center: Point,
}

/// Whether a board position lies in the view of `calc`.
pub open spec fn in_view_of(calc: Calc, p: Point) -> bool {
    !calc.out_of_view(
        calc.to_view(p.x as int, calc.view_center.x as int),
        calc.to_view(p.y as int, calc.view_center.y as int),
    )
}

/// `v` restricted to `lo..=hi`.
pub open spec fn clamp_spec(v: int, lo: int, hi: int) -> int {
    if v < lo {
        lo
    } else if v > hi {
        hi
    } else {
        v
    }
}

impl Calc {
    /// The side of the view is odd, and at least 1.
    pub open spec fn wf(&self) -> bool {
        self.view_size >= 1 && self.view_size % 2 == 1
    }

    /// The board positions of the view fit in an `i16` on both axes.
    pub open spec fn view_fits(&self) -> bool {
        &&& fits_i16(self.view_center.x - self.half())
        &&& fits_i16(self.view_center.x + self.half())
        &&& fits_i16(self.view_center.y - self.half())
        &&& fits_i16(self.view_center.y + self.half())
    }

    /// Half the side of the view, rounded down.
    pub open spec fn half(&self) -> int {
        self.view_size as int / 2
    }

    /// Whether a view position lies outside the view.
    pub open spec fn out_of_view(&self, x: int, y: int) -> bool {
        x <= 0 || x > self.view_size || y <= 0 || y > self.view_size
    }

    /// The view coordinate of board coordinate `b` on an axis centred on `c`.
    pub open spec fn to_view(&self, b: int, c: int) -> int {
        b + 1 + self.half() - c
    }

    /// The board coordinate of view coordinate `v` on an axis centred on `c`.
    pub open spec fn to_board(&self, v: int, c: int) -> int {
        v - 1 - self.half() + c
    }

    /// Every step of converting board coordinate `b` to the view fits in
    /// an `i16`.
    pub open spec fn to_view_fits(&self, b: int, c: int) -> bool {
        fits_i16(b + 1) && fits_i16(b + 1 + self.half()) && fits_i16(self.to_view(b, c))
    }

    /// Every step of converting view coordinate `v` to the board fits in
    /// an `i16`.
    pub open spec fn to_board_fits(&self, v: int, c: int) -> bool {
        fits_i16(v - 1) && fits_i16(v - 1 - self.half()) && fits_i16(self.to_board(v, c))
    }

    /// The side of the view after zooming: two positions more when zooming
    /// out, two fewer when zooming in, or `None` when zooming in a view of
    /// one position.
    pub fn zoomed(&self, zoom: Zoom) -> (r: Option<i16>)
        requires
            self.wf(),
            zoom == Zoom::Out ==> self.view_size + 2 <= i16::MAX,
        ensures
            match zoom {
                Zoom::Out => r == Some((self.view_size + 2) as i16),
                Zoom::In => if self.view_size == 1 {
                    r is None
                } else {
                    r == Some((self.view_size - 2) as i16)
                },
            },
            r matches Some(v) ==> (Calc { view_size: v, view_center: self.view_center }).wf(),
    {
        match zoom {
            Zoom::Out => Some(self.view_size + 2),
            Zoom::In => {
                if self.view_size == 1 {
                    None
                } else {
                    Some(self.view_size - 2)
                }
            },
        }
    }

    /// Restricts a cursor to the inside of the view: a cursor out of view
    /// moves to the nearest position inside it.
    pub fn clamp_cursor(&self, cursor: Point) -> (r: Point)
        requires
            self.wf(),
            self.view_fits(),
            self.to_view_fits(cursor.x as int, self.view_center.x as int),
            self.to_view_fits(cursor.y as int, self.view_center.y as int),
        ensures
            ({
                let x = self.to_view(cursor.x as int, self.view_center.x as int);
                let y = self.to_view(cursor.y as int, self.view_center.y as int);
                if self.out_of_view(x, y) {
                    &&& r.x == self.to_board(
                        clamp_spec(x, 1, self.view_size as int),
                        self.view_center.x as int,
                    )
                    &&& r.y == self.to_board(
                        clamp_spec(y, 1, self.view_size as int),
                        self.view_center.y as int,
                    )
                } else {
                    r == cursor
                }
            }),
            in_view_of(*self, r),
    {
        let (p, out) = self.board_to_view_pos_clamped(cursor, ClampTo::Inside);
        if out {
            self.view_to_board_pos(p)
        } else {
            cursor
        }
    }

    /// Moves a cursor by one position, moving the view along when the
    /// cursor would leave it. Returns the new cursor and view centre.
    pub fn step_cursor(&self, cursor: Point, dx: i16, dy: i16) -> (r: (Point, Point))
        requires
            self.wf(),
            -1 <= dx <= 1,
            -1 <= dy <= 1,
            fits_i16(cursor.x + dx),
            fits_i16(cursor.y + dy),
            fits_i16(self.view_center.x + dx),
            fits_i16(self.view_center.y + dy),
            self.to_view_fits(cursor.x + dx, self.view_center.x as int),
            self.to_view_fits(cursor.y + dy, self.view_center.y as int),
        ensures
            r.0.x == cursor.x + dx,
            r.0.y == cursor.y + dy,
            if in_view_of(*self, r.0) {
                r.1 == self.view_center
            } else {
                r.1.x == self.view_center.x + dx && r.1.y == self.view_center.y + dy
            },
    {
        let moved = Point::new(cursor.x + dx, cursor.y + dy);
        if self.board_to_view_pos(moved).is_none() {
            (moved, Point::new(self.view_center.x + dx, self.view_center.y + dy))
        } else {
            (moved, self.view_center)
        }
    }

    /// Tests if a view position is out of view.
    pub fn view_pos_out_of_view(&self, x: i16, y: i16) -> (r: bool)
        ensures
            r == self.out_of_view(x as int, y as int),
    {
        x <= 0 || x > self.view_size || y <= 0 || y > self.view_size
    }

    /// Converts a view position to board position.
    pub fn view_to_board_pos(&self, p: Point) -> (r: Point)
        requires
            self.wf(),
            self.to_board_fits(p.x as int, self.view_center.x as int),
            self.to_board_fits(p.y as int, self.view_center.y as int),
        ensures
            r.x == self.to_board(p.x as int, self.view_center.x as int),
            r.y == self.to_board(p.y as int, self.view_center.y as int),
    {
        let x = p.x - 1 - self.view_size / 2 + self.view_center.x;
        let y = p.y - 1 - self.view_size / 2 + self.view_center.y;
        Point { x, y }
    }

    /// Converts a board position to view position, not testing whether it
    /// lies in the view.
    pub fn board_to_view_pos_unclamped(&self, p: Point) -> (r: (i16, i16))
        requires
            self.wf(),
            self.to_view_fits(p.x as int, self.view_center.x as int),
            self.to_view_fits(p.y as int, self.view_center.y as int),
        ensures
            r.0 == self.to_view(p.x as int, self.view_center.x as int),
            r.1 == self.to_view(p.y as int, self.view_center.y as int),
    {
        let x = p.x + 1 + self.view_size / 2 - self.view_center.x;
        let y = p.y + 1 + self.view_size / 2 - self.view_center.y;
        (x, y)
    }

    /// Converts a board position to view position, returning `None` if out of view.
    pub fn board_to_view_pos(&self, p: Point) -> (r: Option<Point>)
        requires
            self.wf(),
            self.to_view_fits(p.x as int, self.view_center.x as int),
            self.to_view_fits(p.y as int, self.view_center.y as int),
        ensures
            ({
                let x = self.to_view(p.x as int, self.view_center.x as int);
                let y = self.to_view(p.y as int, self.view_center.y as int);
                if self.out_of_view(x, y) {
                    r is None
                } else {
                    r matches Some(q) && q.x == x && q.y == y
                }
            }),
    {
        let (x, y) = self.board_to_view_pos_unclamped(p);
        if self.view_pos_out_of_view(x, y) {
            None
        } else {
            Some(Point { x, y })
        }
    }

    /// Converts a board position to view position, restricting it to the
    /// given area; also tells whether it lay out of view.
    pub fn board_to_view_pos_clamped(&self, p: Point, clamp_to: ClampTo) -> (r: (Point, bool))
        requires
            self.wf(),
            self.to_view_fits(p.x as int, self.view_center.x as int),
            self.to_view_fits(p.y as int, self.view_center.y as int),
            clamp_to == ClampTo::InsideAndBorder ==> self.view_size < i16::MAX,
        ensures
            ({
                let x = self.to_view(p.x as int, self.view_center.x as int);
                let y = self.to_view(p.y as int, self.view_center.y as int);
                let (lo, hi) = match clamp_to {
                    ClampTo::Inside => (1int, self.view_size as int),
                    ClampTo::InsideAndBorder => (0int, self.view_size + 1),
                };
                &&& r.0.x == clamp_spec(x, lo, hi)
                &&& r.0.y == clamp_spec(y, lo, hi)
                &&& r.1 == self.out_of_view(x, y)
            }),
    {
        let (x, y) = self.board_to_view_pos_unclamped(p);
        let out = self.view_pos_out_of_view(x, y);
        let (min, max): (i16, i16) = match clamp_to {
            ClampTo::Inside => (1, self.view_size),
            ClampTo::InsideAndBorder => (0, self.view_size + 1),
        };
        (Point::new(clamp(x, min, max), clamp(y, min, max)), out)
    }
}

/// `v` restricted to `lo..=hi`.
fn clamp(v: i16, lo: i16, hi: i16) -> (r: i16)
    requires
        lo <= hi,
    ensures
        r == clamp_spec(v as int, lo as int, hi as int),
{
    if v < lo {
        lo
    } else if v > hi {
        hi
    } else {
        v
    }
}

} // verus!
