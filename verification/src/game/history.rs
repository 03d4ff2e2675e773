//! What moving through a record keeps: the board is fixed by the moves in
//! the past, so undoing a move restores the board before it and redoing an
//! undone move restores the record.
use super::record::{legal, placed, turn_spec, Record};
use super::{Move, Point};
use vstd::prelude::*;

verus! {

/// Two well-formed records with the same moves in the past hold the same
/// stones; with the same moves and move index, they are the same record.
pub proof fn lemma_board_of_past(a: Record, b: Record)
    requires
        a.wf(),
        b.wf(),
        a.past() == b.past(),
    ensures
        a.stones() == b.stones(),
        a.all_moves() == b.all_moves() && a.at() == b.at() ==> a@ == b@,
{
}

/// Making a move and then undoing it gives back the board, the move index
/// and the moves in the past from before the move.
pub proof fn lemma_undo_after_move(before: Record, moved: Record, undone: Record, m: Move)
    requires
        before.wf(),
        moved.wf(),
        undone.wf(),
        moved.all_moves() == before.past().push(m),
        moved.at() == before.at() + 1,
        undone.all_moves() == moved.all_moves(),
        undone.at() == moved.at() - 1,
    ensures
        undone.at() == before.at(),
        undone.past() == before.past(),
        undone.stones() == before.stones(),
{
    assert(undone.past() =~= before.past());
}

/// Undoing a move and then redoing it gives back the same record.
pub proof fn lemma_redo_after_undo(before: Record, undone: Record, redone: Record)
    requires
        before.wf(),
        undone.wf(),
        redone.wf(),
        before.at() > 0,
        undone.all_moves() == before.all_moves(),
        undone.at() == before.at() - 1,
        redone.all_moves() == undone.all_moves(),
        redone.at() == undone.at() + 1,
    ensures
        redone@ == before@,
{
    lemma_board_of_past(redone, before);
}

/// Whether a move places a stone at `p`.
pub open spec fn places(m: Move, p: Point) -> bool {
    m matches Move::Place(p1, p2) && (p1 == p || p2 == Some(p))
}

/// The last of some moves adds its stones to those of the moves before it.
proof fn lemma_placed_last(ms: Seq<Move>, p: Point)
    requires
        ms.len() > 0,
    ensures
        placed(ms).contains_key(p) == (placed(ms.drop_last()).contains_key(p) || places(ms.last(), p)),
        places(ms.last(), p) ==> placed(ms)[p] == turn_spec(ms.len() - 1),
        !places(ms.last(), p) ==> placed(ms)[p] == placed(ms.drop_last())[p],
{
}

/// Moves that each place their stones at empty points: a point holds a
/// stone exactly when one of the moves placed a stone there; only one did,
/// and the stone is the one of its turn.
#[verifier::rlimit(30)]
proof fn lemma_placed_by_move(ms: Seq<Move>, p: Point)
    requires
        forall|j: int|
            0 <= j < ms.len() && #[trigger] places(ms[j], p) ==> !placed(ms.take(j)).contains_key(p),
    ensures
        placed(ms).contains_key(p) <==> exists|j: int| 0 <= j < ms.len() && #[trigger] places(ms[j], p),
        forall|j: int| 0 <= j < ms.len() && #[trigger] places(ms[j], p) ==> placed(ms)[p] == turn_spec(j),
        forall|j: int, k: int|
            0 <= j < ms.len() && 0 <= k < ms.len() && #[trigger] places(ms[j], p) && #[trigger] places(ms[k], p)
                ==> j == k,
    decreases ms.len(),
{
    if ms.len() > 0 {
        let n = ms.len() - 1;
        let prev = ms.drop_last();
        assert(ms.take(n) =~= prev);
        assert forall|j: int| 0 <= j < n implies ms[j] == #[trigger] prev[j] by {}
        assert forall|j: int| 0 <= j < prev.len() && #[trigger] places(prev[j], p) implies !placed(
            prev.take(j),
        ).contains_key(p) by {
            assert(places(ms[j], p));
            assert(prev.take(j) =~= ms.take(j));
        }
        lemma_placed_by_move(prev, p);
        lemma_placed_last(ms, p);
        assert forall|j: int| 0 <= j < ms.len() && #[trigger] places(ms[j], p) implies placed(ms)[p]
            == turn_spec(j) by {
            if j < n {
                assert(places(prev[j], p));
            }
        }
        if placed(ms).contains_key(p) && !places(ms[n], p) {
            let j = choose|j: int| 0 <= j < prev.len() && #[trigger] places(prev[j], p);
            assert(places(ms[j], p));
        }
        if exists|j: int| 0 <= j < ms.len() && #[trigger] places(ms[j], p) {
            let j = choose|j: int| 0 <= j < ms.len() && #[trigger] places(ms[j], p);
            if j < n {
                assert(places(prev[j], p));
            }
        }
        assert forall|j: int, k: int|
            0 <= j < ms.len() && 0 <= k < ms.len() && #[trigger] places(ms[j], p) && #[trigger] places(ms[k], p)
                implies j == k by {
            if j < n {
                assert(places(prev[j], p));
            }
            if k < n {
                assert(places(prev[k], p));
            }
        }
    }
}

/// The stone at a point of a well-formed record is the one of the turn of
/// the move in the past that placed a stone there, if one did (only one
/// did); otherwise the point is empty.
pub proof fn lemma_stone_by_move(r: Record, p: Point)
    requires
        r.wf(),
    ensures
        r.stones().contains_key(p) <==> exists|j: int|
            0 <= j < r.at() && #[trigger] places(r.all_moves()[j], p),
        forall|j: int|
            0 <= j < r.at() && #[trigger] places(r.all_moves()[j], p) ==> r.stones()[p] == turn_spec(j),
        forall|j: int, k: int|
            0 <= j < r.at() && 0 <= k < r.at() && #[trigger] places(r.all_moves()[j], p)
                && #[trigger] places(r.all_moves()[k], p) ==> j == k,
{
    let past = r.past();
    assert forall|j: int| 0 <= j < past.len() && #[trigger] places(past[j], p) implies !placed(
        past.take(j),
    ).contains_key(p) by {
        assert(past.take(j) =~= r.all_moves().take(j));
        assert(past[j] == r.all_moves()[j]);
        assert(legal(r.all_moves().take(j), r.all_moves()[j]));
    }
    lemma_placed_by_move(past, p);
    assert forall|j: int| 0 <= j < r.at() implies r.all_moves()[j] == #[trigger] past[j] by {}
    if exists|j: int| 0 <= j < r.at() && #[trigger] places(r.all_moves()[j], p) {
        let j = choose|j: int| 0 <= j < r.at() && #[trigger] places(r.all_moves()[j], p);
        assert(places(past[j], p));
    }
    if r.stones().contains_key(p) {
        let j = choose|j: int| 0 <= j < past.len() && #[trigger] places(past[j], p);
        assert(places(r.all_moves()[j], p));
    }
    assert forall|j: int| 0 <= j < r.at() && #[trigger] places(r.all_moves()[j], p) implies r.stones()[p]
        == turn_spec(j) by {
        assert(places(past[j], p));
    }
    assert forall|j: int, k: int|
        0 <= j < r.at() && 0 <= k < r.at() && #[trigger] places(r.all_moves()[j], p)
            && #[trigger] places(r.all_moves()[k], p) implies j == k by {
        assert(places(past[j], p));
        assert(places(past[k], p));
    }
}

} // verus!
