//! The cascade as a work queue: what holds between the steps of the
//! breadth-first run, and why the run ends on the board that `cascade`
//! describes.

use crate::board::{lemma_cell_index_in_range, lemma_cell_index_injective};
use crate::cascade::{
    adjacent, cascade, cascade_reaches, cascade_spreads_from, cascade_step, is_cascade_path,
    lemma_cascade_spreads,
};
use crate::cell::{Cell, CellState};
use crate::model::{lemma_cell_at_position, BoardView};
use vstd::prelude::*;

verus! {

/// Whether `current` is `board` part-way through a cascade from `seeds`: the
/// only cells that changed were hidden, are reached by the cascade, and are
/// now revealed.
pub open spec fn cascade_sound(board: BoardView, seeds: Set<(i32, i32)>, current: BoardView) -> bool {
    &&& board.same_facts(current)
    &&& forall|i: int|
        0 <= i < board.cells.len() ==> (#[trigger] current.cells[i]).state == board.cells[i].state
            || (board.cells[i].state == CellState::Hidden && current.cells[i].state
            == CellState::Revealed && cascade_reaches(board, seeds, board.cells[i].position))
}

/// Whether the cascade has done its work around `q`: every cell that touches
/// `q` and was hidden on `board` is revealed on `current`.
pub open spec fn cascade_done_around(board: BoardView, current: BoardView, q: (i32, i32)) -> bool {
    forall|n: (i32, i32)|
        adjacent(q, n) && #[trigger] board.covered(n) ==> current.at(n).state
            == CellState::Revealed
}

/// Whether the cascade has to spread on from `q`, going by what `current`
/// shows: `q` is a seed, or a cell without touching bombs that was hidden on
/// `board` and is revealed on `current`.
pub open spec fn cascade_awaits(
    board: BoardView,
    seeds: Set<(i32, i32)>,
    current: BoardView,
    q: (i32, i32),
) -> bool {
    board.contains(q) && (seeds.contains(q) || (board.relays(q) && current.at(q).state
        == CellState::Revealed))
}

/// Whether no work of the cascade is lost: around every cell that it has to
/// spread on from, the work is done or the cell waits in `queue`.
pub open spec fn cascade_pending(
    board: BoardView,
    seeds: Set<(i32, i32)>,
    current: BoardView,
    queue: Seq<(i32, i32)>,
) -> bool {
    forall|q: (i32, i32)| #[trigger]
        cascade_awaits(board, seeds, current, q) ==> queue.contains(q) || cascade_done_around(
            board,
            current,
            q,
        )
}

/// Whether every cell in the queue lies on the board and is one that the
/// cascade spreads on from.
pub open spec fn cascade_queue_ok(
    board: BoardView,
    seeds: Set<(i32, i32)>,
    queue: Seq<(i32, i32)>,
) -> bool {
    forall|j: int|
        0 <= j < queue.len() ==> board.contains(#[trigger] queue[j]) && cascade_spreads_from(
            board,
            seeds,
            queue[j],
        )
}

/// What holds while a cascade from `seeds` over `board` works on the cells
/// around `origin`: the changes so far are sound, the queue holds cells of
/// the board that the cascade spreads on from, and no work is lost if
/// `origin` is counted as still waiting.
pub open spec fn cascade_inv(
    board: BoardView,
    seeds: Set<(i32, i32)>,
    current: BoardView,
    queue: Seq<(i32, i32)>,
    origin: (i32, i32),
) -> bool {
    &&& board.wf()
    &&& cascade_sound(board, seeds, current)
    &&& cascade_queue_ok(board, seeds, queue)
    &&& cascade_pending(board, seeds, current, queue.push(origin))
    &&& board.contains(origin)
    &&& cascade_spreads_from(board, seeds, origin)
}

/// The number of hidden cells.
pub open spec fn hidden_total(cells: Seq<Cell>) -> nat
    decreases cells.len(),
{
    if cells.len() == 0 {
        0
    } else {
        hidden_total(cells.drop_last()) + if cells.last().state == CellState::Hidden {
            1nat
        } else {
            0nat
        }
    }
}

/// Taking a hidden cell out of the hidden state leaves one hidden cell less.
pub proof fn lemma_hidden_total_drops(cells: Seq<Cell>, i: int, cell: Cell)
    requires
        0 <= i < cells.len(),
        cells[i].state == CellState::Hidden,
        cell.state != CellState::Hidden,
    ensures
        hidden_total(cells.update(i, cell)) + 1 == hidden_total(cells),
    decreases cells.len(),
{
    let changed = cells.update(i, cell);
    if i == cells.len() - 1 {
        assert(changed.drop_last() =~= cells.drop_last());
    } else {
        assert(changed.drop_last() =~= cells.drop_last().update(i, cell));
        lemma_hidden_total_drops(cells.drop_last(), i, cell);
    }
}

/// Taking the first cell out of the queue to work on it loses no work.
pub proof fn lemma_cascade_take(
    board: BoardView,
    seeds: Set<(i32, i32)>,
    current: BoardView,
    queue: Seq<(i32, i32)>,
)
    requires
        board.wf(),
        cascade_sound(board, seeds, current),
        cascade_queue_ok(board, seeds, queue),
        cascade_pending(board, seeds, current, queue),
        queue.len() > 0,
    ensures
        cascade_inv(board, seeds, current, queue.subrange(1, queue.len() as int), queue[0]),
{
    let rest = queue.subrange(1, queue.len() as int);
    let origin = queue[0];
    assert forall|j: int| 0 <= j < rest.len() implies board.contains(#[trigger] rest[j])
        && cascade_spreads_from(board, seeds, rest[j]) by {
        assert(rest[j] == queue[j + 1]);
    }
    assert forall|q: (i32, i32)| #[trigger]
        cascade_awaits(board, seeds, current, q) implies rest.push(origin).contains(q)
        || cascade_done_around(board, current, q) by {
        if queue.contains(q) {
            let j = choose|j: int| 0 <= j < queue.len() && queue[j] == q;
            if j == 0 {
                assert(rest.push(origin)[rest.len() as int] == q);
            } else {
                assert(rest.push(origin)[j - 1] == q);
            }
        }
    }
}

/// One step of the cascade: revealing the hidden cell `n` next to `origin`,
/// and queueing it if no bomb touches it, keeps what holds of the cascade,
/// leaves one hidden cell less and hides no revealed cell.
pub proof fn lemma_cascade_spread_step(
    board: BoardView,
    seeds: Set<(i32, i32)>,
    current: BoardView,
    queue: Seq<(i32, i32)>,
    origin: (i32, i32),
    n: (i32, i32),
)
    requires
        cascade_inv(board, seeds, current, queue, origin),
        adjacent(origin, n),
        board.contains(n),
        current.at(n).state == CellState::Hidden,
    ensures
        ({
            let next = current.with_cell(n, current.at(n).with_state(CellState::Revealed));
            let next_queue = if current.at(n).neighbor_bombs == 0 {
                queue.push(n)
            } else {
                queue
            };
            &&& cascade_inv(board, seeds, next, next_queue, origin)
            &&& hidden_total(next.cells) + 1 == hidden_total(current.cells)
            &&& next.at(n).state == CellState::Revealed
            &&& forall|m: (i32, i32)|
                board.contains(m) && current.at(m).state == CellState::Revealed ==> (
                #[trigger] next.at(m)).state == CellState::Revealed
        }),
{
    let next = current.with_cell(n, current.at(n).with_state(CellState::Revealed));
    let next_queue = if current.at(n).neighbor_bombs == 0 {
        queue.push(n)
    } else {
        queue
    };
    let idx = board.index_of(n);
    lemma_cell_at_position(board, n);
    assert(current.cells[idx].state == CellState::Hidden);
    assert(board.cells[idx].state == CellState::Hidden);
    assert(board.covered(n));
    lemma_cascade_spreads(board, seeds, origin, n);
    lemma_hidden_total_drops(current.cells, idx, current.at(n).with_state(CellState::Revealed));

    // Which cell a coordinate of the board names is the same before and after.
    assert forall|m: (i32, i32)| board.contains(m) implies 0 <= board.index_of(m)
        < board.cells.len() && (board.index_of(m) == idx <==> m == n) && #[trigger] next.at(m) == (
    if m == n {
        current.at(n).with_state(CellState::Revealed)
    } else {
        current.at(m)
    }) by {
        lemma_cell_index_in_range(board.width, board.height, m.0 as int, m.1 as int);
        if board.index_of(m) == idx {
            lemma_cell_index_injective(board.width, m.0 as int, m.1 as int, n.0 as int, n.1 as int);
        }
    }

    assert(board.same_facts(next)) by {
        assert forall|i: int| 0 <= i < board.cells.len() implies #[trigger] next.cells[i]
            == board.cells[i].with_state(next.cells[i].state) by {
            assert(current.cells[i] == board.cells[i].with_state(current.cells[i].state));
        }
    }
    assert(cascade_sound(board, seeds, next)) by {
        assert forall|i: int| 0 <= i < board.cells.len() implies (#[trigger] next.cells[i]).state
            == board.cells[i].state || (board.cells[i].state == CellState::Hidden
            && next.cells[i].state == CellState::Revealed && cascade_reaches(
            board,
            seeds,
            board.cells[i].position,
        )) by {
            if i != idx {
                assert(next.cells[i] == current.cells[i]);
            }
        }
    }
    assert(cascade_queue_ok(board, seeds, next_queue)) by {
        assert forall|j: int| 0 <= j < next_queue.len() implies board.contains(
            #[trigger] next_queue[j],
        ) && cascade_spreads_from(board, seeds, next_queue[j]) by {
            if j < queue.len() {
                assert(next_queue[j] == queue[j]);
            }
        }
    }
    assert(cascade_pending(board, seeds, next, next_queue.push(origin))) by {
        assert forall|q: (i32, i32)| #[trigger]
            cascade_awaits(board, seeds, next, q) implies next_queue.push(origin).contains(q)
            || cascade_done_around(board, next, q) by {
            if !cascade_awaits(board, seeds, current, q) {
                assert(next.at(q) != current.at(q));
                assert(q == n);
                assert(next_queue.push(origin)[queue.len() as int] == n);
            } else {
                if queue.push(origin).contains(q) {
                    let j = choose|j: int|
                        0 <= j < queue.push(origin).len() && queue.push(origin)[j] == q;
                    if j < queue.len() {
                        assert(next_queue.push(origin)[j] == q);
                    } else {
                        assert(next_queue.push(origin)[next_queue.len() as int] == q);
                    }
                } else {
                    assert(cascade_done_around(board, current, q));
                    assert forall|m: (i32, i32)|
                        adjacent(q, m) && #[trigger] board.covered(m) implies next.at(m).state
                        == CellState::Revealed by {
                        assert(current.at(m).state == CellState::Revealed);
                    }
                }
            }
        }
    }
}

/// Once the work around `origin` is done, `origin` need not wait any more.
pub proof fn lemma_cascade_release(
    board: BoardView,
    seeds: Set<(i32, i32)>,
    current: BoardView,
    queue: Seq<(i32, i32)>,
    origin: (i32, i32),
)
    requires
        cascade_inv(board, seeds, current, queue, origin),
        cascade_done_around(board, current, origin),
    ensures
        cascade_pending(board, seeds, current, queue),
{
    assert forall|q: (i32, i32)| #[trigger]
        cascade_awaits(board, seeds, current, q) implies queue.contains(q) || cascade_done_around(
        board,
        current,
        q,
    ) by {
        if queue.push(origin).contains(q) && q != origin {
            let j = choose|j: int| 0 <= j < queue.push(origin).len() && queue.push(origin)[j] == q;
            assert(queue[j] == q);
        }
    }
}

/// Once nothing is pending, every cell along a cascade path is revealed.
proof fn lemma_finished_covers_path(
    board: BoardView,
    seeds: Set<(i32, i32)>,
    current: BoardView,
    path: Seq<(i32, i32)>,
    k: int,
)
    requires
        forall|s: (i32, i32)| seeds.contains(s) ==> board.contains(s),
        cascade_pending(board, seeds, current, Seq::empty()),
        is_cascade_path(board, seeds, path),
        1 <= k < path.len(),
    ensures
        current.at(path[k]).state == CellState::Revealed,
    decreases k,
{
    assert(cascade_step(board, path, k));
    let q = path[k - 1];
    if k > 1 {
        lemma_finished_covers_path(board, seeds, current, path, k - 1);
        assert(cascade_step(board, path, k - 1));
    }
    assert(cascade_awaits(board, seeds, current, q));
    assert(!Seq::<(i32, i32)>::empty().contains(q));
    assert(cascade_done_around(board, current, q));
    assert(board.covered(path[k]));
}

/// A sound cascade with nothing pending has produced exactly the board that
/// `cascade` describes.
pub proof fn lemma_cascade_finished(board: BoardView, seeds: Set<(i32, i32)>, current: BoardView)
    requires
        board.wf(),
        forall|s: (i32, i32)| seeds.contains(s) ==> board.contains(s),
        cascade_sound(board, seeds, current),
        cascade_pending(board, seeds, current, Seq::empty()),
    ensures
        current == cascade(board, seeds),
{
    let target = cascade(board, seeds);
    assert forall|i: int| 0 <= i < board.cells.len() implies current.cells[i]
        == target.cells[i] by {
        let p = board.cells[i].position;
        assert(board.cell_wf(i));
        assert(current.cells[i] == board.cells[i].with_state(current.cells[i].state));
        if current.cells[i].state == board.cells[i].state {
            if board.cells[i].state == CellState::Hidden && cascade_reaches(board, seeds, p) {
                let path = choose|path: Seq<(i32, i32)>| #[trigger]
                    is_cascade_path(board, seeds, path) && path.last() == p;
                lemma_finished_covers_path(board, seeds, current, path, path.len() - 1);
                assert(current.at(p) == current.cells[i]);
            }
        }
    }
    assert(current.cells =~= target.cells);
}

} // verus!
