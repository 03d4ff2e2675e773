//! Game records: the moves made, the current position in them, and the
//! stones on the board there.
use super::direction::{Direction, Stone};
use super::moves::{lemma_reversed, lemma_same_as_symmetric, step, Move};
use super::point::Point;
use std::collections::HashMap;
use vstd::prelude::*;

verus! {

broadcast use vstd::std_specs::hash::group_hash_axioms;

/// The stone to play at move number `i`: black first, then alternating.
pub open spec fn turn_spec(i: int) -> Stone {
    if i % 2 == 0 {
        Stone::Black
    } else {
        Stone::White
    }
}

/// The stones on the board after the given moves.
pub open spec fn placed(moves: Seq<Move>) -> Map<Point, Stone>
    decreases moves.len(),
{
    if moves.len() == 0 {
        Map::empty()
    } else {
        let prev = placed(moves.drop_last());
        let s = turn_spec(moves.len() - 1);
        match moves.last() {
            Move::Place(p1, p2) => {
                let m = prev.insert(p1, s);
                match p2 {
                    Some(q) => m.insert(q, s),
                    None => m,
                }
            },
            _ => prev,
        }
    }
}

/// The stone at a point, if any.
pub open spec fn stone_of(b: Map<Point, Stone>, p: Point) -> Option<Stone> {
    if b.contains_key(p) {
        Some(b[p])
    } else {
        None
    }
}

/// Whether `q` is a point holding stone `s`.
pub open spec fn holds(b: Map<Point, Stone>, q: Option<Point>, s: Stone) -> bool {
    q matches Some(pt) && stone_of(b, pt) == Some(s)
}

/// The number of points holding `s` in a row from `p` (exclusive) in
/// direction `d`, counting no further than `cap`.
pub open spec fn run(b: Map<Point, Stone>, p: Point, d: Direction, s: Stone, cap: nat) -> nat
    decreases cap,
{
    if cap == 0 {
        0
    } else {
        let r = run(b, p, d, s, (cap - 1) as nat);
        if r == cap - 1 && holds(b, step(p, d, cap as int), s) {
            cap
        } else {
            r
        }
    }
}

/// The other end of a winning row that starts at `p` and goes in
/// direction `d`: `p` and the five points after it hold the same stone.
pub open spec fn winning_row_end(b: Map<Point, Stone>, p: Point, d: Direction) -> Option<Point> {
    if b.contains_key(p) && run(b, p, d, b[p], 5) == 5 {
        step(p, d, 5)
    } else {
        None
    }
}

/// A winning row through `p` along the line of `fwd`: one of its ends and
/// the direction to the other.
pub open spec fn row_along(b: Map<Point, Stone>, p: Point, s: Stone, fwd: Direction) -> Option<
    (Point, Direction),
> {
    let f = run(b, p, fwd, s, 5);
    if f == 5 {
        Some((step(p, fwd, 5).unwrap(), fwd.reversed()))
    } else {
        let bwd = fwd.reversed();
        if run(b, p, bwd, s, (5 - f) as nat) == 5 - f {
            Some((step(p, bwd, 5 - f).unwrap(), fwd))
        } else {
            None
        }
    }
}

/// A winning row through `p`, looked for along north, northeast, east and
/// southeast in turn.
pub open spec fn winning_row_through(b: Map<Point, Stone>, p: Point) -> Option<(Point, Direction)> {
    if !b.contains_key(p) {
        None
    } else {
        let s = b[p];
        if row_along(b, p, s, Direction::North) is Some {
            row_along(b, p, s, Direction::North)
        } else if row_along(b, p, s, Direction::Northeast) is Some {
            row_along(b, p, s, Direction::Northeast)
        } else if row_along(b, p, s, Direction::East) is Some {
            row_along(b, p, s, Direction::East)
        } else {
            row_along(b, p, s, Direction::Southeast)
        }
    }
}

/// Both coordinates lie in `-0x3fff..=0x3fff`, where stones may be placed.
pub open spec fn in_bounds(p: Point) -> bool {
    -0x3fff <= p.x <= 0x3fff && -0x3fff <= p.y <= 0x3fff
}

/// Whether the game is over after the given moves.
pub open spec fn ended(hist: Seq<Move>) -> bool {
    hist.len() > 0 && hist.last().ending()
}

/// Whether `m` may be made after the moves `hist`.
pub open spec fn legal(hist: Seq<Move>, m: Move) -> bool {
    let b = placed(hist);
    &&& !ended(hist)
    &&& hist.len() < u32::MAX
    &&& match m {
        Move::Place(p1, p2) => {
            &&& !(hist.len() == 0 && p2 is Some)
            &&& p2 != Some(p1)
            &&& in_bounds(p1)
            &&& !b.contains_key(p1)
            &&& (p2 matches Some(q) ==> in_bounds(q) && !b.contains_key(q))
        },
        Move::Win(p, d) => winning_row_end(b, p, d) is Some,
        _ => true,
    }
}

/// Whether each move may be made after the ones before it.
pub open spec fn legal_seq(moves: Seq<Move>) -> bool {
    forall|i: int| 0 <= i < moves.len() ==> legal(moves.take(i), #[trigger] moves[i])
}

/// The key under which the stone at a point is stored.
pub open spec fn key_of(p: Point) -> int {
    (p.x + 0x8000) * 0x10000 + (p.y + 0x8000)
}

/// The stones of a map keyed by `key_of`.
pub open spec fn stones_view(m: Map<u32, Stone>) -> Map<Point, Stone> {
    Map::new(|p: Point| m.contains_key(key_of(p) as u32), |p: Point| m[key_of(p) as u32])
}

/// The stones of a two-stone or one-stone move, with the stone that places them.
pub open spec fn place_stones(b: Map<Point, Stone>, m: Move, s: Stone) -> Map<Point, Stone> {
    match m {
        Move::Place(p1, p2) => {
            let b1 = b.insert(p1, s);
            match p2 {
                Some(q) => b1.insert(q, s),
                None => b1,
            }
        },
        _ => b,
    }
}

/// `positions` with `stone` on each.
pub open spec fn placements(positions: Seq<Point>, stone: Stone) -> Map<Point, Stone> {
    Map::new(|p: Point| positions.contains(p), |p: Point| stone)
}

proof fn lemma_stones_insert(m: Map<u32, Stone>, p: Point, s: Stone)
    ensures
        stones_view(m.insert(key_of(p) as u32, s)) == stones_view(m).insert(p, s),
{
    assert forall|q: Point| #[trigger] stones_view(m.insert(key_of(p) as u32, s)).contains_key(q)
        == stones_view(m).insert(p, s).contains_key(q) by {
        if key_of(q) == key_of(p) {
            lemma_key_injective(p, q);
        }
    }
    assert(stones_view(m.insert(key_of(p) as u32, s)) =~= stones_view(m).insert(p, s));
}

proof fn lemma_stones_remove(m: Map<u32, Stone>, p: Point)
    ensures
        stones_view(m.remove(key_of(p) as u32)) == stones_view(m).remove(p),
{
    assert forall|q: Point| #[trigger] stones_view(m.remove(key_of(p) as u32)).contains_key(q)
        == stones_view(m).remove(p).contains_key(q) by {
        if key_of(q) == key_of(p) {
            lemma_key_injective(p, q);
        }
    }
    assert(stones_view(m.remove(key_of(p) as u32)) =~= stones_view(m).remove(p));
}

pub proof fn lemma_placed_push(hist: Seq<Move>, m: Move)
    ensures
        placed(hist.push(m)) == place_stones(placed(hist), m, turn_spec(hist.len() as int)),
{
    assert(hist.push(m).drop_last() =~= hist);
}

pub proof fn lemma_legal_seq_take(moves: Seq<Move>, k: int)
    requires
        legal_seq(moves),
        0 <= k <= moves.len(),
    ensures
        legal_seq(moves.take(k)),
{
    assert forall|i: int| 0 <= i < moves.take(k).len() implies legal(
        moves.take(k).take(i),
        #[trigger] moves.take(k)[i],
    ) by {
        assert(moves.take(k).take(i) =~= moves.take(i));
        assert(legal(moves.take(i), moves[i]));
    }
}

pub proof fn lemma_legal_seq_push(moves: Seq<Move>, m: Move)
    requires
        legal_seq(moves),
        legal(moves, m),
    ensures
        legal_seq(moves.push(m)),
{
    assert forall|i: int| 0 <= i < moves.push(m).len() implies legal(
        moves.push(m).take(i),
        #[trigger] moves.push(m)[i],
    ) by {
        if i < moves.len() {
            assert(moves.push(m).take(i) =~= moves.take(i));
            assert(legal(moves.take(i), moves[i]));
        } else {
            assert(moves.push(m).take(i) =~= moves);
        }
    }
}

/// Whether two move sequences are the same move for move.
pub open spec fn same_moves(a: Seq<Move>, b: Seq<Move>) -> bool {
    a.len() == b.len() && forall|i: int| 0 <= i < a.len() ==> #[trigger] a[i].same_as(b[i])
}

/// `same_moves` is symmetric.
pub proof fn lemma_same_moves_symmetric(a: Seq<Move>, b: Seq<Move>)
    requires
        same_moves(a, b),
    ensures
        same_moves(b, a),
{
    assert forall|i: int| 0 <= i < b.len() implies #[trigger] b[i].same_as(a[i]) by {
        lemma_same_as_symmetric(a[i], b[i]);
    }
}

/// The same moves place the same stones.
pub proof fn lemma_same_placed(a: Seq<Move>, b: Seq<Move>)
    requires
        same_moves(a, b),
    ensures
        placed(a) == placed(b),
    decreases a.len(),
{
    if a.len() > 0 {
        let n = a.len() - 1;
        assert(a[n].same_as(b[n]));
        assert(same_moves(a.drop_last(), b.drop_last())) by {
            assert forall|i: int| 0 <= i < n implies #[trigger] a.drop_last()[i].same_as(
                b.drop_last()[i],
            ) by {
                assert(a[i].same_as(b[i]));
            }
        }
        lemma_same_placed(a.drop_last(), b.drop_last());
        assert(placed(a) =~= placed(b));
    }
}

/// A run of `cap` stones is `cap` points in a row holding the stone.
pub proof fn lemma_run_all(b: Map<Point, Stone>, p: Point, d: Direction, s: Stone, cap: nat)
    ensures
        run(b, p, d, s, cap) == cap <==> forall|j: int|
            1 <= j <= cap ==> #[trigger] holds(b, step(p, d, j), s),
    decreases cap,
{
    if cap > 0 {
        lemma_run_all(b, p, d, s, (cap - 1) as nat);
        lemma_run_bound(b, p, d, s, (cap - 1) as nat);
    }
}

/// A winning row read from its other end, in the other direction, is a
/// winning row ending where the first began.
pub proof fn lemma_row_reverse(b: Map<Point, Stone>, p: Point, d: Direction)
    requires
        winning_row_end(b, p, d) is Some,
    ensures
        winning_row_end(b, winning_row_end(b, p, d).unwrap(), d.reversed()) == Some(p),
{
    let s = b[p];
    let q = winning_row_end(b, p, d).unwrap();
    let rd = d.reversed();
    let a = d.dx();
    let c = d.dy();
    lemma_reversed(d);
    lemma_run_all(b, p, d, s, 5);
    lemma_run_all(b, q, rd, s, 5);
    assert(holds(b, step(p, d, 5), s));
    assert forall|j: int| 1 <= j <= 5 implies #[trigger] holds(b, step(q, rd, j), s) by {
        assert(rd.dx() * j == -(a * j) && rd.dy() * j == -(c * j)) by (nonlinear_arith)
            requires
                rd.dx() == -a,
                rd.dy() == -c,
        ;
        assert(a * (5 - j) == a * 5 - a * j && c * (5 - j) == c * 5 - c * j) by (nonlinear_arith);
        if j < 5 {
            assert(holds(b, step(p, d, 5 - j), s));
            assert(step(q, rd, j) == step(p, d, 5 - j));
        } else {
            assert(step(q, rd, 5) == Some(p));
        }
    }
    assert(step(q, rd, 5) == Some(p));
}

/// A move the same as a legal one, after the same moves, is legal.
pub proof fn lemma_legal_same(h1: Seq<Move>, m1: Move, h2: Seq<Move>, m2: Move)
    requires
        same_moves(h1, h2),
        m1.same_as(m2),
        legal(h1, m1),
    ensures
        legal(h2, m2),
{
    lemma_same_placed(h1, h2);
    if h1.len() > 0 {
        assert(h1[h1.len() - 1].same_as(h2[h1.len() - 1]));
    }
    if let Move::Win(p, d) = m1 {
        if let Move::Win(q, e) = m2 {
            if !(p == q && d == e) {
                lemma_row_reverse(placed(h1), p, d);
            }
        }
    }
}

/// Every stone on the board of a legal game lies within bounds.
pub proof fn lemma_placed_in_bounds(moves: Seq<Move>)
    requires
        legal_seq(moves),
    ensures
        forall|p: Point| #[trigger] placed(moves).contains_key(p) ==> in_bounds(p),
    decreases moves.len(),
{
    if moves.len() > 0 {
        let n = moves.len() - 1;
        lemma_legal_seq_take(moves, n);
        assert(moves.take(n) =~= moves.drop_last());
        assert(legal(moves.take(n), moves[n]));
        lemma_placed_in_bounds(moves.drop_last());
    }
}

/// After a run stops, it stops for good.
pub proof fn lemma_run_stops(b: Map<Point, Stone>, p: Point, d: Direction, s: Stone, j: nat, cap: nat)
    requires
        run(b, p, d, s, j) == j,
        !holds(b, step(p, d, j + 1int), s),
        j < cap,
    ensures
        run(b, p, d, s, cap) == j,
    decreases cap,
{
    if cap > j + 1 {
        lemma_run_stops(b, p, d, s, j, (cap - 1) as nat);
    }
}

/// A full run ends on a point holding the stone.
pub proof fn lemma_run_full(b: Map<Point, Stone>, p: Point, d: Direction, s: Stone, cap: nat)
    requires
        cap >= 1,
        run(b, p, d, s, cap) == cap,
    ensures
        holds(b, step(p, d, cap as int), s),
        step(p, d, cap as int) is Some,
{
    lemma_run_bound(b, p, d, s, (cap - 1) as nat);
}

proof fn lemma_contains_push(s: Seq<Point>, p: Point, q: Point)
    ensures
        s.push(p).contains(q) <==> (s.contains(q) || q == p),
{
    if s.push(p).contains(q) {
        let k = choose|k: int| 0 <= k < s.push(p).len() && #[trigger] s.push(p)[k] == q;
        if k < s.len() {
            assert(s[k] == q);
        }
    }
    if s.contains(q) {
        let k = choose|k: int| 0 <= k < s.len() && #[trigger] s[k] == q;
        assert(s.push(p)[k] == q);
    }
    if q == p {
        assert(s.push(p)[s.len() as int] == q);
    }
}

proof fn lemma_contains_skip(s: Seq<Point>, i: int, q: Point)
    requires
        0 <= i < s.len(),
    ensures
        s.skip(i).contains(q) <==> (s.skip(i + 1).contains(q) || q == s[i]),
{
    if s.skip(i).contains(q) {
        let k = choose|k: int| 0 <= k < s.skip(i).len() && #[trigger] s.skip(i)[k] == q;
        if k > 0 {
            assert(s.skip(i + 1)[k - 1] == q);
        }
    }
    if s.skip(i + 1).contains(q) {
        let k = choose|k: int| 0 <= k < s.skip(i + 1).len() && #[trigger] s.skip(i + 1)[k] == q;
        assert(s.skip(i)[k + 1] == q);
    }
    if q == s[i] {
        assert(s.skip(i)[0] == q);
    }
}

proof fn lemma_no_dup_skip(s: Seq<Point>, i: int)
    requires
        0 <= i < s.len(),
        s.no_duplicates(),
    ensures
        !s.skip(i + 1).contains(s[i]),
{
    if s.skip(i + 1).contains(s[i]) {
        let k = choose|k: int| 0 <= k < s.skip(i + 1).len() && #[trigger] s.skip(i + 1)[k] == s[i];
        assert(s[i + 1 + k] == s[i]);
    }
}

/// A run never exceeds its cap.
pub proof fn lemma_run_bound(b: Map<Point, Stone>, p: Point, d: Direction, s: Stone, cap: nat)
    ensures
        run(b, p, d, s, cap) <= cap,
    decreases cap,
{
    if cap > 0 {
        lemma_run_bound(b, p, d, s, (cap - 1) as nat);
    }
}

/// Returns the stone to play at the given move index.
pub fn turn_at(index: usize) -> (r: Stone)
    ensures
        r == turn_spec(index as int),
{
    let n = (index & 1) as u8;
    assert(n == index % 2) by (bit_vector)
        requires
            n == (index & 1) as u8,
    ;
    match Stone::from_u8(n) {
        Some(s) => s,
        None => Stone::Black,
    }
}

fn point_key(p: Point) -> (r: u32)
    ensures
        r == key_of(p),
{
    ((p.x as i32 + 0x8000) as u32) * 0x10000 + ((p.y as i32 + 0x8000) as u32)
}

proof fn lemma_key_injective(p: Point, q: Point)
    requires
        key_of(p) == key_of(q),
    ensures
        p == q,
{
}

/// Scheme to encode a game record with.
#[derive(Clone, Copy, Debug, Eq, PartialEq, Structural)]
pub struct RecordEncodingScheme {
    /// Whether to include all moves prefixed with the current move index.
    pub all: bool,
    /// Whether to enable delta encoding.
    pub delta: bool,
}

impl RecordEncodingScheme {
    /// The number of the scheme: bit 0 for `all`, bit 1 for `delta`.
    pub open spec fn value(self) -> u8 {
        ((if self.all {
            1int
        } else {
            0int
        }) + (if self.delta {
            2int
        } else {
            0int
        })) as u8
    }

    /// Returns the default scheme for encoding all moves.
    pub fn all() -> (r: Self)
        ensures
            r.all && !r.delta,
    {
        RecordEncodingScheme { all: true, delta: false }
    }

    /// Returns the default scheme for encoding only the past moves.
    pub fn past() -> (r: Self)
        ensures
            !r.all && !r.delta,
    {
        RecordEncodingScheme { all: false, delta: false }
    }

    /// Enables delta encoding.
    pub fn delta(self) -> (r: Self)
        ensures
            r.all == self.all && r.delta,
    {
        let mut s = self;
        s.delta = true;
        s
    }

    /// Encodes the scheme to a `u8`.
    pub fn as_u8(self) -> (r: u8)
        ensures
            r == self.value(),
            r < 4,
    {
        let a: u8 = if self.all {
            1
        } else {
            0
        };
        let d: u8 = if self.delta {
            2
        } else {
            0
        };
        assert(a | d == a + d) by (bit_vector)
            requires
                a <= 1,
                d == 0 || d == 2,
        ;
        a | d
    }

    /// Creates a `RecordEncodingScheme` from a `u8`.
    pub fn from_u8(n: u8) -> (r: Option<Self>)
        ensures
            r is Some <==> n <= 3,
            r matches Some(sc) ==> sc.value() == n && sc.all == (n % 2 == 1) && sc.delta == (n
                >= 2),
    {
        if n > 3 {
            return None;
        }
        let all = n & 1 != 0;
        let delta = n & 2 != 0;
        assert((n & 1u8 != 0) == (n % 2 == 1) && (n & 2u8 != 0) == (n >= 2)) by (bit_vector)
            requires
                n <= 3,
        ;
        Some(RecordEncodingScheme { all, delta })
    }
}

/// A Connect6 game record.
#[derive(Debug, Eq, PartialEq)]
pub struct Record {
    map: HashMap<u32, Stone>,
    moves: Vec<Move>,
    index: usize,
}

impl View for Record {
    type V = (Map<Point, Stone>, Seq<Move>, nat);

    /// The stones on the board, all moves, and the current move index.
    open spec fn view(&self) -> Self::V {
        (self.stones(), self.all_moves(), self.at())
    }
}

impl Clone for Record {
    /// Copies the record: the same stones, moves and move index.
    fn clone(&self) -> (r: Self)
        ensures
            r@ == self@,
    {
        let moves = self.moves.clone();
        assert(moves@ =~= self.moves@);
        Record { map: self.map.clone(), moves, index: self.index }
    }
}

impl Default for Record {
    /// Creates an empty record.
    fn default() -> (r: Self)
        ensures
            r.wf(),
            r.all_moves() == Seq::<Move>::empty(),
            r.at() == 0,
            r.stones() == Map::<Point, Stone>::empty(),
    {
        Record::new()
    }
}

impl Record {
    /// The stones on the board.
    pub closed spec fn stones(&self) -> Map<Point, Stone> {
        stones_view(self.map@)
    }

    /// All moves, in the past or in the future.
    pub closed spec fn all_moves(&self) -> Seq<Move> {
        self.moves@
    }

    /// The current move index.
    pub closed spec fn at(&self) -> nat {
        self.index as nat
    }

    /// The moves in the past.
    pub open spec fn past(&self) -> Seq<Move> {
        self.all_moves().take(self.at() as int)
    }

    /// A record is well formed: its index lies within its moves, every move
    /// was legal where it was made, and the board holds the stones of the
    /// moves in the past.
    pub open spec fn wf(&self) -> bool {
        &&& self.at() <= self.all_moves().len() <= u32::MAX
        &&& legal_seq(self.all_moves())
        &&& self.stones() == placed(self.past())
    }

    /// Creates an empty record.
    pub fn new() -> (r: Self)
        ensures
            r.wf(),
            r.all_moves() == Seq::<Move>::empty(),
            r.at() == 0,
            r.stones() == Map::<Point, Stone>::empty(),
    {
        let r = Record { map: HashMap::new(), moves: Vec::new(), index: 0 };
        assert(r.stones() =~= Map::<Point, Stone>::empty());
        assert(r.past() =~= Seq::<Move>::empty());
        r
    }

    /// The stones, moves and index of a record with `positions` holding
    /// `stone` besides the stones it has.
    pub open spec fn with_placements(&self, stone: Stone, positions: Seq<Point>) -> (
        Map<Point, Stone>,
        Seq<Move>,
        nat,
    ) {
        (self.stones().union_prefer_right(placements(positions, stone)), self.all_moves(), self.at())
    }

    /// Clears the record.
    pub fn clear(&mut self)
        ensures
            final(self).wf(),
            final(self).all_moves() == Seq::<Move>::empty(),
            final(self).at() == 0,
            final(self).stones() == Map::<Point, Stone>::empty(),
    {
        self.map.clear();
        self.moves.clear();
        self.index = 0;
        assert(self.stones() =~= Map::<Point, Stone>::empty());
        assert(self.past() =~= Seq::<Move>::empty());
    }

    /// Returns a slice of all moves, in the past or in the future.
    pub fn moves(&self) -> (r: &[Move])
        ensures
            r@ == self.all_moves(),
    {
        self.moves.as_slice()
    }

    /// Returns the current move index.
    pub fn move_index(&self) -> (r: usize)
        ensures
            r == self.at(),
    {
        self.index
    }

    /// Returns the previous move (if any).
    pub fn prev_move(&self) -> (r: Option<Move>)
        requires
            self.wf(),
        ensures
            self.at() == 0 ==> r is None,
            self.at() > 0 ==> r == Some(self.all_moves()[self.at() - 1]),
    {
        if self.index == 0 {
            None
        } else {
            Some(self.moves[self.index - 1])
        }
    }

    /// Returns the next move (if any).
    pub fn next_move(&self) -> (r: Option<Move>)
        requires
            self.wf(),
        ensures
            self.at() == self.all_moves().len() ==> r is None,
            self.at() < self.all_moves().len() ==> r == Some(self.all_moves()[self.at() as int]),
    {
        if self.index < self.moves.len() {
            Some(self.moves[self.index])
        } else {
            None
        }
    }

    /// Tests if there is any move in the past.
    pub fn has_past(&self) -> (r: bool)
        ensures
            r == (self.at() > 0),
    {
        self.index > 0
    }

    /// Tests if there is any move in the future.
    pub fn has_future(&self) -> (r: bool)
        ensures
            r == (self.at() < self.all_moves().len()),
    {
        self.index < self.moves.len()
    }

    /// Tests if the game is ended.
    pub fn is_ended(&self) -> (r: bool)
        requires
            self.wf(),
        ensures
            r == ended(self.past()),
    {
        match self.prev_move() {
            Some(m) => m.is_ending(),
            None => false,
        }
    }

    /// Returns the maximum number of stones to play in the current turn.
    pub fn max_stones_to_play(&self) -> (r: usize)
        requires
            self.wf(),
        ensures
            r == (if self.at() == 0 {
                1usize
            } else if !ended(self.past()) {
                2usize
            } else {
                0usize
            }),
    {
        if !self.has_past() {
            1
        } else if !self.is_ended() {
            2
        } else {
            0
        }
    }

    /// Returns the current stone to play, without checking if the game is ended.
    fn turn_unchecked(&self) -> (r: Stone)
        ensures
            r == turn_spec(self.at() as int),
    {
        turn_at(self.index)
    }

    /// Returns the current stone to play, or `None` if the game is ended.
    pub fn turn(&self) -> (r: Option<Stone>)
        requires
            self.wf(),
        ensures
            r == (if ended(self.past()) {
                None
            } else {
                Some(turn_spec(self.at() as int))
            }),
    {
        if self.is_ended() {
            None
        } else {
            Some(self.turn_unchecked())
        }
    }

    /// Returns the stone at the given position (if any).
    pub fn stone_at(&self, p: Point) -> (r: Option<Stone>)
        ensures
            r == stone_of(self.stones(), p),
    {
        match self.map.get(&point_key(p)) {
            Some(s) => Some(*s),
            None => None,
        }
    }

    fn insert_stone(&mut self, p: Point, s: Stone)
        ensures
            final(self).stones() == old(self).stones().insert(p, s),
            final(self).all_moves() == old(self).all_moves(),
            final(self).at() == old(self).at(),
    {
        proof {
            lemma_stones_insert(self.map@, p, s);
        }
        self.map.insert(point_key(p), s);
    }

    fn remove_stone(&mut self, p: Point)
        ensures
            final(self).stones() == old(self).stones().remove(p),
            final(self).all_moves() == old(self).all_moves(),
            final(self).at() == old(self).at(),
    {
        proof {
            lemma_stones_remove(self.map@, p);
        }
        self.map.remove(&point_key(p));
    }

    /// Makes a move, clearing moves in the future.
    ///
    /// Returns whether the move succeeded.
    pub fn make_move(&mut self, mov: Move) -> (r: bool)
        requires
            old(self).wf(),
        ensures
            final(self).wf(),
            r == legal(old(self).past(), mov),
            r ==> final(self).all_moves() == old(self).past().push(mov) && final(self).at()
                == old(self).at() + 1,
            !r ==> final(self)@ == old(self)@,
    {
        let ghost hist = self.past();
        if self.is_ended() {
            return false;
        }
        if self.index >= 0xffff_ffffusize {
            return false;
        }
        let ghost b = self.stones();
        match mov {
            Move::Place(p1, p2) => {
                if self.index == 0 && p2.is_some() {
                    return false;
                }
                match p2 {
                    Some(q) => {
                        if q == p1 {
                            return false;
                        }
                    },
                    None => {},
                }
                if !Self::placeable(p1) || self.stone_at(p1).is_some() {
                    return false;
                }
                match p2 {
                    Some(q) => {
                        if !Self::placeable(q) || self.stone_at(q).is_some() {
                            return false;
                        }
                    },
                    None => {},
                }
                let stone = self.turn_unchecked();
                self.insert_stone(p1, stone);
                match p2 {
                    Some(q) => self.insert_stone(q, stone),
                    None => {},
                }
            },
            Move::Win(p, dir) => {
                if self.test_winning_row(p, dir).is_none() {
                    return false;
                }
            },
            _ => {},
        }
        proof {
            lemma_placed_push(hist, mov);
            lemma_legal_seq_take(self.moves@, self.index as int);
            lemma_legal_seq_push(hist, mov);
        }
        self.moves.truncate(self.index);
        self.moves.push(mov);
        self.index += 1;
        assert(self.all_moves() =~= hist.push(mov));
        assert(self.past() =~= hist.push(mov));
        true
    }

    /// Removes the moves in the future, keeping those in the past.
    pub fn clear_future(&mut self)
        requires
            old(self).wf(),
        ensures
            final(self).wf(),
            final(self).all_moves() == old(self).past(),
            final(self).at() == old(self).at(),
            final(self).stones() == old(self).stones(),
    {
        proof {
            lemma_legal_seq_take(self.moves@, self.index as int);
        }
        self.moves.truncate(self.index);
        assert(self.past() =~= old(self).past());
    }

    fn placeable(p: Point) -> (r: bool)
        ensures
            r == in_bounds(p),
    {
        -0x3fff <= p.x && p.x <= 0x3fff && -0x3fff <= p.y && p.y <= 0x3fff
    }

    /// Undoes the previous move (if any).
    pub fn undo_move(&mut self) -> (r: Option<Move>)
        requires
            old(self).wf(),
        ensures
            final(self).wf(),
            old(self).at() == 0 ==> r is None && final(self)@ == old(self)@,
            old(self).at() > 0 ==> r == Some(old(self).all_moves()[old(self).at() - 1])
                && final(self).all_moves() == old(self).all_moves() && final(self).at() == old(
                self,
            ).at() - 1,
    {
        let prev = match self.prev_move() {
            Some(m) => m,
            None => return None,
        };
        let ghost all = self.moves@;
        let ghost k = self.index - 1;
        let ghost hist = all.take(k);
        proof {
            assert(self.past() =~= hist.push(prev));
            lemma_placed_push(hist, prev);
            assert(legal(all.take(k), all[k]));
        }
        match prev {
            Move::Place(p1, p2) => {
                self.remove_stone(p1);
                match p2 {
                    Some(q) => self.remove_stone(q),
                    None => {},
                }
            },
            _ => {},
        }
        self.index -= 1;
        proof {
            assert(self.past() =~= hist);
            assert(self.stones() =~= placed(hist));
        }
        Some(prev)
    }

    /// Redoes the next move (if any).
    pub fn redo_move(&mut self) -> (r: Option<Move>)
        requires
            old(self).wf(),
        ensures
            final(self).wf(),
            old(self).at() == old(self).all_moves().len() ==> r is None && final(self)@ == old(
                self,
            )@,
            old(self).at() < old(self).all_moves().len() ==> r == Some(
                old(self).all_moves()[old(self).at() as int],
            ) && final(self).all_moves() == old(self).all_moves() && final(self).at() == old(
                self,
            ).at() + 1,
    {
        let next = match self.next_move() {
            Some(m) => m,
            None => return None,
        };
        let ghost all = self.moves@;
        let ghost k = self.index as int;
        let ghost hist = all.take(k);
        proof {
            assert(all.take(k + 1) =~= hist.push(next));
            lemma_placed_push(hist, next);
        }
        match next {
            Move::Place(p1, p2) => {
                let stone = self.turn_unchecked();
                self.insert_stone(p1, stone);
                match p2 {
                    Some(q) => self.insert_stone(q, stone),
                    None => {},
                }
            },
            _ => {},
        }
        self.index += 1;
        proof {
            assert(self.past() =~= hist.push(next));
        }
        Some(next)
    }

    /// Jumps to the given move index by undoing or redoing moves.
    pub fn jump(&mut self, index: usize) -> (r: bool)
        requires
            old(self).wf(),
        ensures
            final(self).wf(),
            r == (index <= old(self).all_moves().len()),
            r ==> final(self).all_moves() == old(self).all_moves() && final(self).at() == index,
            !r ==> final(self)@ == old(self)@,
    {
        if index > self.moves.len() {
            return false;
        }
        let ghost all = self.moves@;
        while self.index > index
            invariant
                self.wf(),
                self.all_moves() == all,
                index <= all.len(),
            decreases self.index,
        {
            self.undo_move();
        }
        while self.index < index
            invariant
                self.wf(),
                self.all_moves() == all,
                index <= all.len(),
                self.index <= index,
            decreases index - self.index,
        {
            self.redo_move();
        }
        true
    }

    /// Counts the points holding `stone` in a row from `p` (exclusive) in
    /// direction `dir`, up to `cap`.
    fn scan(&self, p: Point, dir: Direction, stone: Stone, cap: u16) -> (r: u16)
        requires
            cap <= 5,
        ensures
            r == run(self.stones(), p, dir, stone, cap as nat),
    {
        let mut j: u16 = 0;
        while j < cap
            invariant
                j <= cap <= 5,
                run(self.stones(), p, dir, stone, j as nat) == j,
            decreases cap - j,
        {
            let q = p.adjacent_iter(dir, j);
            let hit = match q {
                Some(q) => match self.stone_at(q) {
                    Some(s) => s == stone,
                    None => false,
                },
                None => false,
            };
            if !hit {
                proof {
                    lemma_run_stops(self.stones(), p, dir, stone, j as nat, cap as nat);
                }
                return j;
            }
            j += 1;
        }
        j
    }

    /// Searches in all directions for a winning row passing through `p`.
    ///
    /// If a winning row is found, returns one of its endpoints
    /// and a direction pointing to the other endpoint.
    pub fn find_winning_row(&self, p: Point) -> (r: Option<(Point, Direction)>)
        ensures
            r == winning_row_through(self.stones(), p),
    {
        let stone = match self.stone_at(p) {
            Some(s) => s,
            None => return None,
        };
        let north = self.scan_row(p, stone, Direction::North);
        if north.is_some() {
            return north;
        }
        let northeast = self.scan_row(p, stone, Direction::Northeast);
        if northeast.is_some() {
            return northeast;
        }
        let east = self.scan_row(p, stone, Direction::East);
        if east.is_some() {
            return east;
        }
        self.scan_row(p, stone, Direction::Southeast)
    }

    fn scan_row(&self, p: Point, stone: Stone, fwd: Direction) -> (r: Option<(Point, Direction)>)
        ensures
            r == row_along(self.stones(), p, stone, fwd),
    {
        let bwd = fwd.opposite();
        let f = self.scan(p, fwd, stone, 5);
        if f == 5 {
            proof {
                lemma_run_full(self.stones(), p, fwd, stone, 5);
            }
            return match p.adjacent_iter(fwd, 4) {
                Some(q) => Some((q, bwd)),
                None => None,
            };
        }
        proof {
            lemma_run_bound(self.stones(), p, fwd, stone, 5);
        }
        let g = self.scan(p, bwd, stone, 5 - f);
        if g == 5 - f {
            proof {
                lemma_run_full(self.stones(), p, bwd, stone, (5 - f) as nat);
            }
            match p.adjacent_iter(bwd, 4 - f) {
                Some(q) => Some((q, fwd)),
                None => None,
            }
        } else {
            None
        }
    }

    /// Tests if the given winning row is valid, returning the other endpoint if so.
    pub fn test_winning_row(&self, p: Point, dir: Direction) -> (r: Option<Point>)
        ensures
            r == winning_row_end(self.stones(), p, dir),
    {
        let stone = match self.stone_at(p) {
            Some(s) => s,
            None => return None,
        };
        if self.scan(p, dir, stone, 5) == 5 {
            p.adjacent_iter(dir, 4)
        } else {
            None
        }
    }

    /// Places `stone` at each of `positions` temporarily, calls `f`
    /// and returns the result after undoing the placements.
    ///
    /// The positions must be free and distinct (placing a stone on an
    /// occupied point panics).
    pub fn with_temp_placements<T, F>(&mut self, stone: Stone, positions: &[Point], f: F) -> (r: T) where
        F: FnOnce(&Self) -> T,

        requires
            positions@.no_duplicates(),
            forall|i: int|
                0 <= i < positions@.len() ==> !old(self).stones().contains_key(
                    #[trigger] positions@[i],
                ),
            forall|rec: Record|
                rec@ == old(self).with_placements(stone, positions@) ==> call_requires(
                    f,
                    (&rec,),
                ),
        ensures
            final(self)@ == old(self)@,
            old(self).wf() ==> final(self).wf(),
            exists|rec: Record|
                rec@ == old(self).with_placements(stone, positions@) && call_ensures(
                    f,
                    (&rec,),
                    r,
                ),
    {
        let ghost orig = self.stones();
        let n = positions.len();
        let mut i: usize = 0;
        while i < n
            invariant
                n == positions@.len(),
                i <= n,
                positions@.no_duplicates(),
                forall|j: int| 0 <= j < n ==> !orig.contains_key(#[trigger] positions@[j]),
                self.stones() == orig.union_prefer_right(placements(positions@.take(i as int), stone)),
                self.all_moves() == old(self).all_moves(),
                self.at() == old(self).at(),
            decreases n - i,
        {
            let p = positions[i];
            self.insert_stone(p, stone);
            i += 1;
            proof {
                assert(positions@.take(i as int) =~= positions@.take(i - 1).push(p));
                assert forall|q: Point| #[trigger] positions@.take(i as int).contains(q) <==> (
                positions@.take(i - 1).contains(q) || q == p) by {
                    lemma_contains_push(positions@.take(i - 1), p, q);
                }
                assert(self.stones() =~= orig.union_prefer_right(
                    placements(positions@.take(i as int), stone),
                ));
            }
        }
        assert(positions@.take(n as int) =~= positions@);
        assert(self@ == old(self).with_placements(stone, positions@));
        let ghost snapshot = *self;
        let res = f(&*self);
        assert(call_ensures(f, (&snapshot,), res));
        let mut i: usize = 0;
        while i < n
            invariant
                n == positions@.len(),
                i <= n,
                positions@.no_duplicates(),
                forall|j: int| 0 <= j < n ==> !orig.contains_key(#[trigger] positions@[j]),
                self.stones() == orig.union_prefer_right(
                    placements(positions@.skip(i as int), stone),
                ),
                self.all_moves() == old(self).all_moves(),
                self.at() == old(self).at(),
            decreases n - i,
        {
            let p = positions[i];
            self.remove_stone(p);
            i += 1;
            proof {
                assert forall|q: Point| #[trigger] positions@.skip(i - 1).contains(q) <==> (
                positions@.skip(i as int).contains(q) || q == p) by {
                    lemma_contains_skip(positions@, i - 1, q);
                }
                lemma_no_dup_skip(positions@, i - 1);
                assert(self.stones() =~= orig.union_prefer_right(
                    placements(positions@.skip(i as int), stone),
                ));
            }
        }
        assert(positions@.skip(n as int) =~= Seq::<Point>::empty());
        assert(self.stones() =~= orig);
        res
    }
}

} // verus!
