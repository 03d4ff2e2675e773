//! What the search for a winning row finds, stated without the search: a
//! row of six points holding the stone of a point, with the point among
//! them, exactly when there is one.
use super::direction::{Direction, Stone};
use super::moves::{lemma_reversed, step};
use super::point::Point;
use super::record::{
    holds, lemma_run_all, lemma_run_bound, row_along, run, winning_row_end, winning_row_through, Record,
};
use vstd::prelude::*;

verus! {

/// Whether the six points from `q` on in direction `e` all hold `s`.
pub open spec fn six_in_a_row(b: Map<Point, Stone>, q: Point, e: Direction, s: Stone) -> bool {
    forall|j: int| 0 <= j < 6 ==> #[trigger] holds(b, step(q, e, j), s)
}

/// Whether `p` is one of the six points from `q` on in direction `e`.
pub open spec fn on_row(p: Point, q: Point, e: Direction) -> bool {
    exists|j: int| 0 <= j < 6 && #[trigger] step(q, e, j) == Some(p)
}

/// Steps add up along a direction.
proof fn lemma_step_add(q: Point, e: Direction, k: int, a: int)
    requires
        step(q, e, k) is Some,
    ensures
        step(step(q, e, k).unwrap(), e, a) == step(q, e, k + a),
{
    let dx = e.dx();
    let dy = e.dy();
    let p = step(q, e, k).unwrap();
    assert(p.x == q.x + dx * k && p.y == q.y + dy * k);
    assert(dx * k + dx * a == dx * (k + a) && dy * k + dy * a == dy * (k + a)) by (nonlinear_arith);
}

/// A step back along the reversed direction is a step forward negated, and
/// no step stays put.
proof fn lemma_step_rev(p: Point, e: Direction, a: int)
    ensures
        step(p, e.reversed(), a) == step(p, e, -a),
        step(p, e, 0) == Some(p),
{
    lemma_reversed(e);
    let dx = e.dx();
    let dy = e.dy();
    assert((-dx) * a == dx * (-a) && (-dy) * a == dy * (-a)) by (nonlinear_arith);
    assert(dx * 0 == 0 && dy * 0 == 0) by (nonlinear_arith);
}

/// Every point a run counts holds the stone.
proof fn lemma_run_holds(b: Map<Point, Stone>, p: Point, d: Direction, s: Stone, cap: nat)
    ensures
        forall|j: int| 1 <= j <= run(b, p, d, s, cap) ==> #[trigger] holds(b, step(p, d, j), s),
    decreases cap,
{
    if cap > 0 {
        lemma_run_holds(b, p, d, s, (cap - 1) as nat);
        lemma_run_bound(b, p, d, s, (cap - 1) as nat);
    }
}

/// A run counts at least the points in a row from its start that hold the
/// stone, up to its cap.
proof fn lemma_run_at_least(b: Map<Point, Stone>, p: Point, d: Direction, s: Stone, m: nat, cap: nat)
    requires
        m <= cap,
        forall|j: int| 1 <= j <= m ==> #[trigger] holds(b, step(p, d, j), s),
    ensures
        run(b, p, d, s, cap) >= m,
    decreases cap,
{
    if cap > 0 {
        if m == cap {
            lemma_run_at_least(b, p, d, s, (m - 1) as nat, (cap - 1) as nat);
            lemma_run_bound(b, p, d, s, (cap - 1) as nat);
            assert(holds(b, step(p, d, cap as int), s));
        } else {
            lemma_run_at_least(b, p, d, s, m, (cap - 1) as nat);
        }
    }
}

/// What the search along one line finds is a row of six holding the stone
/// with `p` among them.
proof fn lemma_row_along_sound(b: Map<Point, Stone>, p: Point, s: Stone, fwd: Direction)
    requires
        holds(b, Some(p), s),
    ensures
        row_along(b, p, s, fwd) matches Some((q, e)) ==> six_in_a_row(b, q, e, s) && on_row(p, q, e),
{
    let bwd = fwd.reversed();
    lemma_reversed(fwd);
    let f = run(b, p, fwd, s, 5);
    lemma_run_bound(b, p, fwd, s, 5);
    lemma_run_holds(b, p, fwd, s, 5);
    if f == 5 {
        let q = step(p, fwd, 5).unwrap();
        assert(holds(b, step(p, fwd, 5), s));
        assert forall|j: int| 0 <= j < 6 implies #[trigger] holds(b, step(q, bwd, j), s) by {
            lemma_step_rev(q, fwd, j);
            lemma_step_add(p, fwd, 5, -j);
            lemma_step_rev(p, fwd, 0);
        }
        lemma_step_rev(q, fwd, 5);
        lemma_step_add(p, fwd, 5, -5);
        lemma_step_rev(p, fwd, 0);
        assert(step(q, bwd, 5) == Some(p));
    } else {
        let g = (5 - f) as nat;
        lemma_run_holds(b, p, bwd, s, g);
        lemma_run_bound(b, p, bwd, s, g);
        if run(b, p, bwd, s, g) == g {
            assert(holds(b, step(p, bwd, g as int), s));
            lemma_step_rev(p, fwd, g as int);
            let q = step(p, bwd, g as int).unwrap();
            assert forall|j: int| 0 <= j < 6 implies #[trigger] holds(b, step(q, fwd, j), s) by {
                lemma_step_add(p, fwd, -g, j);
                lemma_step_rev(p, fwd, 0);
                if j < g {
                    lemma_step_rev(p, fwd, g - j);
                } else if j > g {
                    assert(1 <= j - g <= f);
                }
            }
            lemma_step_add(p, fwd, -g, g as int);
            lemma_step_rev(p, fwd, 0);
            assert(step(q, fwd, g as int) == Some(p));
        }
    }
}

/// A row of six holding the stone along `fwd`, with `p` among them, is
/// found by the search along that line.
proof fn lemma_row_along_complete(
    b: Map<Point, Stone>,
    p: Point,
    s: Stone,
    fwd: Direction,
    q: Point,
    k: int,
)
    requires
        six_in_a_row(b, q, fwd, s),
        0 <= k < 6,
        step(q, fwd, k) == Some(p),
    ensures
        row_along(b, p, s, fwd) is Some,
{
    let bwd = fwd.reversed();
    lemma_reversed(fwd);
    let m = (5 - k) as nat;
    assert forall|j: int| 1 <= j <= m implies #[trigger] holds(b, step(p, fwd, j), s) by {
        lemma_step_add(q, fwd, k, j);
        assert(holds(b, step(q, fwd, k + j), s));
    }
    lemma_run_at_least(b, p, fwd, s, m, 5);
    let f = run(b, p, fwd, s, 5);
    lemma_run_bound(b, p, fwd, s, 5);
    if f != 5 {
        let g = (5 - f) as nat;
        assert(g <= k);
        assert forall|j: int| 1 <= j <= g implies #[trigger] holds(b, step(p, bwd, j), s) by {
            lemma_step_rev(p, fwd, j);
            lemma_step_add(q, fwd, k, -j);
            assert(holds(b, step(q, fwd, k - j), s));
        }
        lemma_run_at_least(b, p, bwd, s, g, g);
        lemma_run_bound(b, p, bwd, s, g);
    }
}

/// A row of six read from its other end is a row of six in the reversed
/// direction, with the same points on it.
proof fn lemma_six_reversed(b: Map<Point, Stone>, q: Point, e: Direction, s: Stone, k: int, p: Point)
    requires
        six_in_a_row(b, q, e, s),
        0 <= k < 6,
        step(q, e, k) == Some(p),
    ensures
        step(q, e, 5) is Some,
        six_in_a_row(b, step(q, e, 5).unwrap(), e.reversed(), s),
        step(step(q, e, 5).unwrap(), e.reversed(), 5 - k) == Some(p),
{
    assert(holds(b, step(q, e, 5), s));
    let q2 = step(q, e, 5).unwrap();
    assert forall|j: int| 0 <= j < 6 implies #[trigger] holds(b, step(q2, e.reversed(), j), s) by {
        lemma_step_rev(q2, e, j);
        lemma_step_add(q, e, 5, -j);
        assert(holds(b, step(q, e, 5 - j), s));
    }
    lemma_step_rev(q2, e, 5 - k);
    lemma_step_add(q, e, 5, k - 5);
}

/// The search for a winning row through `p` finds one exactly when the
/// stone at `p` has six in a row with `p` among them, along any line: then
/// it gives a first point and a direction from which the six points hold
/// the stone at `p`, `p` among them; otherwise it gives `None`.
pub proof fn lemma_winning_row_search(b: Map<Point, Stone>, p: Point)
    ensures
        match winning_row_through(b, p) {
            Some((q, e)) => b.contains_key(p) && six_in_a_row(b, q, e, b[p]) && on_row(p, q, e),
            None => !(b.contains_key(p) && exists|q: Point, e: Direction|
                #![trigger six_in_a_row(b, q, e, b[p]), on_row(p, q, e)]
                six_in_a_row(b, q, e, b[p]) && on_row(p, q, e)),
        },
{
    if b.contains_key(p) {
        let s = b[p];
        lemma_row_along_sound(b, p, s, Direction::North);
        lemma_row_along_sound(b, p, s, Direction::Northeast);
        lemma_row_along_sound(b, p, s, Direction::East);
        lemma_row_along_sound(b, p, s, Direction::Southeast);
        if exists|q: Point, e: Direction| #![trigger six_in_a_row(b, q, e, s), on_row(p, q, e)]
            six_in_a_row(b, q, e, s) && on_row(p, q, e) {
            let (q, e) = choose|q: Point, e: Direction|
                #![trigger six_in_a_row(b, q, e, s), on_row(p, q, e)]
                six_in_a_row(b, q, e, s) && on_row(p, q, e);
            let k = choose|k: int| 0 <= k < 6 && #[trigger] step(q, e, k) == Some(p);
            let (q1, e1, k1) = if e.canonical() {
                (q, e, k)
            } else {
                lemma_six_reversed(b, q, e, s, k, p);
                lemma_reversed(e);
                (step(q, e, 5).unwrap(), e.reversed(), 5 - k)
            };
            lemma_row_along_complete(b, p, s, e1, q1, k1);
            assert(e1.canonical());
            match e1 {
                Direction::North => {},
                Direction::Northeast => {},
                Direction::East => {},
                Direction::Southeast => {},
                _ => {},
            }
        }
    }
}

/// `Record::find_winning_row`, which gives `winning_row_through` of the
/// record's stones, finds a row of six through `p` exactly when there is
/// one.
pub proof fn lemma_find_winning_row(r: Record, p: Point)
    ensures
        match winning_row_through(r.stones(), p) {
            Some((q, e)) => r.stones().contains_key(p) && six_in_a_row(r.stones(), q, e, r.stones()[p])
                && on_row(p, q, e),
            None => !(r.stones().contains_key(p) && exists|q: Point, e: Direction|
                #![trigger six_in_a_row(r.stones(), q, e, r.stones()[p]), on_row(p, q, e)]
                six_in_a_row(r.stones(), q, e, r.stones()[p]) && on_row(p, q, e)),
        },
{
    lemma_winning_row_search(r.stones(), p);
}

/// Whether the stone at `p` has six in a row through `p` along the line of
/// `d`, read either way.
pub open spec fn line_has_row(b: Map<Point, Stone>, p: Point, d: Direction) -> bool {
    exists|q: Point, e: Direction|
        #![trigger six_in_a_row(b, q, e, b[p]), on_row(p, q, e)]
        (e == d || e == d.reversed()) && six_in_a_row(b, q, e, b[p]) && on_row(p, q, e)
}

/// Along a line with no row found by the search, there is none.
proof fn lemma_no_row_on_line(b: Map<Point, Stone>, p: Point, d: Direction)
    requires
        b.contains_key(p),
        d.canonical(),
        row_along(b, p, b[p], d) is None,
    ensures
        !line_has_row(b, p, d),
{
    let s = b[p];
    if line_has_row(b, p, d) {
        let (q, e) = choose|q: Point, e: Direction|
            #![trigger six_in_a_row(b, q, e, b[p]), on_row(p, q, e)]
            (e == d || e == d.reversed()) && six_in_a_row(b, q, e, b[p]) && on_row(p, q, e);
        let k = choose|k: int| 0 <= k < 6 && #[trigger] step(q, e, k) == Some(p);
        lemma_reversed(d);
        if e == d {
            lemma_row_along_complete(b, p, s, d, q, k);
        } else {
            lemma_six_reversed(b, q, e, s, k, p);
            lemma_reversed(e);
            lemma_row_along_complete(b, p, s, d, step(q, e, 5).unwrap(), 5 - k);
        }
    }
}

/// The search looks along north, northeast, east and southeast in turn:
/// the row it finds lies on the first of those lines that holds a row of
/// six through `p`.
pub proof fn lemma_winning_row_first_line(b: Map<Point, Stone>, p: Point)
    ensures
        winning_row_through(b, p) matches Some((q, e)) ==> line_has_row(b, p, e) && forall|d: Direction|
            d.canonical() && d.value() < e.value() % 4 ==> !#[trigger] line_has_row(b, p, d),
{
    if let Some((q, e)) = winning_row_through(b, p) {
        let s = b[p];
        lemma_winning_row_search(b, p);
        lemma_reversed(e);
        assert(line_has_row(b, p, e)) by {
            assert(six_in_a_row(b, q, e, b[p]) && on_row(p, q, e));
        }
        if row_along(b, p, s, Direction::North) is None {
            lemma_no_row_on_line(b, p, Direction::North);
        }
        if row_along(b, p, s, Direction::Northeast) is None {
            lemma_no_row_on_line(b, p, Direction::Northeast);
        }
        if row_along(b, p, s, Direction::East) is None {
            lemma_no_row_on_line(b, p, Direction::East);
        }
        assert forall|d: Direction| d.canonical() && d.value() < e.value() % 4 implies !#[trigger] line_has_row(
            b,
            p,
            d,
        ) by {
            match d {
                Direction::North => {},
                Direction::Northeast => {},
                Direction::East => {},
                _ => {},
            }
        }
    }
}

/// Testing a winning row from `p` in direction `d` (as
/// `Record::test_winning_row` does) finds its other end exactly when `p`
/// and the five points after it hold the same stone; that end is the
/// fifth point after `p`.
pub proof fn lemma_winning_row_test(b: Map<Point, Stone>, p: Point, d: Direction)
    ensures
        winning_row_end(b, p, d) is Some <==> (b.contains_key(p) && six_in_a_row(b, p, d, b[p])),
        winning_row_end(b, p, d) is Some ==> winning_row_end(b, p, d) == step(p, d, 5),
{
    if b.contains_key(p) {
        let s = b[p];
        lemma_run_all(b, p, d, s, 5);
        lemma_step_rev(p, d, 0);
        if six_in_a_row(b, p, d, s) {
            assert forall|j: int| 1 <= j <= 5 implies #[trigger] holds(b, step(p, d, j), s) by {
                assert(holds(b, step(p, d, j), s));
            }
            assert(holds(b, step(p, d, 5), s));
        }
        if run(b, p, d, s, 5) == 5 {
            assert forall|j: int| 0 <= j < 6 implies #[trigger] holds(b, step(p, d, j), s) by {
                if j >= 1 {
                    assert(holds(b, step(p, d, j), s));
                }
            }
            assert(holds(b, step(p, d, 5), s));
        }
    }
}

} // verus!
