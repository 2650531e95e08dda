//! The cascade: what it means for a reveal to run on through the cells that
//! no bomb touches, and what holds of every cascade.

use crate::board::{adjacent_bombs, bomb_at, bomb_weight};
use crate::cell::CellState;
use crate::model::{lemma_cell_at_position, lemma_same_facts_wf, BoardView};
use vstd::prelude::*;

verus! {

/// Whether two coordinates name different cells that touch horizontally,
/// vertically or diagonally.
pub open spec fn adjacent(p: (i32, i32), q: (i32, i32)) -> bool {
    &&& p != q
    &&& -1 <= q.0 - p.0 <= 1
    &&& -1 <= q.1 - p.1 <= 1
}

impl BoardView {
    /// Whether `p` is a hidden cell of the board: one that a cascade may
    /// reveal.
    pub open spec fn covered(self, p: (i32, i32)) -> bool {
        self.contains(p) && self.at(p).state == CellState::Hidden
    }

    /// Whether `p` is a hidden cell that no bomb touches: one that a cascade
    /// reveals and spreads on from.
    pub open spec fn relays(self, p: (i32, i32)) -> bool {
        self.covered(p) && self.at(p).neighbor_bombs == 0
    }
}

/// Step `k` of a cascade along `path`: the cell `path[k]` touches the one
/// before it and is hidden, and unless it ends the path no bomb touches it.
pub open spec fn cascade_step(board: BoardView, path: Seq<(i32, i32)>, k: int) -> bool {
    &&& adjacent(path[k - 1], path[k])
    &&& board.covered(path[k])
    &&& k < path.len() - 1 ==> board.at(path[k]).neighbor_bombs == 0
}

/// Whether a cascade runs along `path`: it starts on a seed, goes from cell
/// to touching cell over hidden cells, and passes only through cells that no
/// bomb touches.
pub open spec fn is_cascade_path(
    board: BoardView,
    seeds: Set<(i32, i32)>,
    path: Seq<(i32, i32)>,
) -> bool {
    &&& path.len() >= 2
    &&& seeds.contains(path[0])
    &&& forall|k: int| 1 <= k < path.len() ==> #[trigger] cascade_step(board, path, k)
}

/// Whether a cascade from `seeds` reveals `p`.
pub open spec fn cascade_reaches(board: BoardView, seeds: Set<(i32, i32)>, p: (i32, i32)) -> bool {
    exists|path: Seq<(i32, i32)>| #[trigger] is_cascade_path(board, seeds, path) && path.last() == p
}

/// The board after a cascade from `seeds`: every hidden cell that the
/// cascade reaches is revealed, and nothing else changes.
pub open spec fn cascade(board: BoardView, seeds: Set<(i32, i32)>) -> BoardView {
    BoardView {
        cells: Seq::new(
            board.cells.len(),
            |i: int|
                if board.cells[i].state == CellState::Hidden && cascade_reaches(
                    board,
                    seeds,
                    board.cells[i].position,
                ) {
                    board.cells[i].with_state(CellState::Revealed)
                } else {
                    board.cells[i]
                },
        ),
        ..board
    }
}

/// Whether a cascade spreads on from `q`: it is a seed, or a cell without
/// touching bombs that the cascade reveals.
pub open spec fn cascade_spreads_from(board: BoardView, seeds: Set<(i32, i32)>, q: (i32, i32)) -> bool {
    seeds.contains(q) || (board.relays(q) && cascade_reaches(board, seeds, q))
}

impl BoardView {
    /// Whether `p` is open ground: a revealed free cell that no bomb touches.
    pub open spec fn is_open_ground(self, p: (i32, i32)) -> bool {
        &&& self.contains(p)
        &&& self.at(p).state == CellState::Revealed
        &&& self.at(p).neighbor_bombs == 0
        &&& !self.at(p).is_bomb
    }

    /// The open ground of the board, from which a cascade over the whole
    /// board starts.
    pub open spec fn open_ground(self) -> Set<(i32, i32)> {
        Set::new(|p: (i32, i32)| self.is_open_ground(p))
    }

    /// The board after a cascade from all of its open ground.
    pub open spec fn auto_revealed(self) -> BoardView {
        cascade(self, self.open_ground())
    }

    /// Whether no cascade is left unfinished: no hidden cell touches open
    /// ground.
    pub open spec fn settled(self) -> bool {
        forall|q: (i32, i32), n: (i32, i32)|
            #![trigger self.is_open_ground(q), self.covered(n)]
            self.is_open_ground(q) && adjacent(q, n) ==> !self.covered(n)
    }
}

/// A cascade reveals the hidden cells that touch a seed.
pub proof fn lemma_cascade_from_seed(
    board: BoardView,
    seeds: Set<(i32, i32)>,
    s: (i32, i32),
    n: (i32, i32),
)
    requires
        seeds.contains(s),
        adjacent(s, n),
        board.covered(n),
    ensures
        cascade_reaches(board, seeds, n),
{
    let path = seq![s, n];
    assert forall|k: int| 1 <= k < path.len() implies #[trigger] cascade_step(board, path, k) by {
        assert(k == 1);
    }
    assert(is_cascade_path(board, seeds, path) && path.last() == n);
}

/// A cascade that reveals a cell without touching bombs also reveals the
/// hidden cells that touch it.
pub proof fn lemma_cascade_extends(
    board: BoardView,
    seeds: Set<(i32, i32)>,
    q: (i32, i32),
    n: (i32, i32),
)
    requires
        cascade_reaches(board, seeds, q),
        board.at(q).neighbor_bombs == 0,
        adjacent(q, n),
        board.covered(n),
    ensures
        cascade_reaches(board, seeds, n),
{
    let path = choose|path: Seq<(i32, i32)>| #[trigger]
        is_cascade_path(board, seeds, path) && path.last() == q;
    let longer = path.push(n);
    assert forall|k: int| 1 <= k < longer.len() implies #[trigger] cascade_step(
        board,
        longer,
        k,
    ) by {
        if k < path.len() {
            assert(cascade_step(board, path, k));
        }
    }
    assert(is_cascade_path(board, seeds, longer) && longer.last() == n);
}

/// A cascade spreads to the hidden cells that touch a cell it spreads on
/// from.
pub proof fn lemma_cascade_spreads(
    board: BoardView,
    seeds: Set<(i32, i32)>,
    q: (i32, i32),
    n: (i32, i32),
)
    requires
        cascade_spreads_from(board, seeds, q),
        adjacent(q, n),
        board.covered(n),
    ensures
        cascade_reaches(board, seeds, n),
{
    if seeds.contains(q) {
        lemma_cascade_from_seed(board, seeds, q, n);
    } else {
        lemma_cascade_extends(board, seeds, q, n);
    }
}

/// A cascade stops at its rim: every cell it reveals was hidden and touches
/// a cell that the cascade spreads on from, so a revealed cell that a bomb
/// touches passes nothing on.
pub proof fn lemma_cascade_rim(board: BoardView, seeds: Set<(i32, i32)>, p: (i32, i32))
    requires
        cascade_reaches(board, seeds, p),
    ensures
        board.covered(p),
        exists|q: (i32, i32)| adjacent(q, p) && #[trigger] cascade_spreads_from(board, seeds, q),
{
    let path = choose|path: Seq<(i32, i32)>| #[trigger]
        is_cascade_path(board, seeds, path) && path.last() == p;
    let k = path.len() - 1;
    assert(cascade_step(board, path, k));
    let q = path[k - 1];
    if k - 1 >= 1 {
        let shorter = path.subrange(0, k);
        assert(cascade_step(board, path, k - 1));
        assert forall|j: int| 1 <= j < shorter.len() implies #[trigger] cascade_step(
            board,
            shorter,
            j,
        ) by {
            assert(cascade_step(board, path, j));
        }
        assert(is_cascade_path(board, seeds, shorter) && shorter.last() == q);
    }
    assert(adjacent(q, p) && cascade_spreads_from(board, seeds, q));
}

/// What a cascade does to each cell of the board: a hidden cell that it
/// reaches is revealed, and every other cell stays as it is. The board stays
/// well formed.
pub proof fn lemma_cascade_at(board: BoardView, seeds: Set<(i32, i32)>, q: (i32, i32))
    requires
        board.wf(),
        board.contains(q),
    ensures
        cascade(board, seeds).wf(),
        board.same_facts(cascade(board, seeds)),
        cascade(board, seeds).at(q) == (if board.covered(q) && cascade_reaches(board, seeds, q) {
            board.at(q).with_state(CellState::Revealed)
        } else {
            board.at(q)
        }),
{
    lemma_cell_at_position(board, q);
    lemma_same_facts_wf(board, cascade(board, seeds));
}

/// No bomb touches a free cell whose neighbour count is zero.
pub proof fn lemma_open_ground_is_safe(board: BoardView, q: (i32, i32), n: (i32, i32))
    requires
        board.wf(),
        board.contains(q),
        !board.at(q).is_bomb,
        board.at(q).neighbor_bombs == 0,
        adjacent(q, n),
        board.contains(n),
    ensures
        !board.at(n).is_bomb,
{
    lemma_cell_at_position(board, q);
    lemma_cell_at_position(board, n);
    let layout = board.layout();
    let (x, y) = (q.0 as int, q.1 as int);
    assert(adjacent_bombs(board.width, board.height, layout, x, y) == 0);
    assert(bomb_weight(board.width, board.height, layout, n.0 as int, n.1 as int) == 0);
    assert(!bomb_at(board.width, board.height, layout, n.0 as int, n.1 as int));
}

/// Along a cascade that starts on free cells without touching bombs, no cell
/// is a bomb.
proof fn lemma_cascade_path_is_safe(
    board: BoardView,
    seeds: Set<(i32, i32)>,
    path: Seq<(i32, i32)>,
    k: int,
)
    requires
        board.wf(),
        forall|s: (i32, i32)|
            seeds.contains(s) ==> board.contains(s) && !board.at(s).is_bomb && board.at(
                s,
            ).neighbor_bombs == 0,
        is_cascade_path(board, seeds, path),
        1 <= k < path.len(),
    ensures
        !board.at(path[k]).is_bomb,
    decreases k,
{
    assert(cascade_step(board, path, k));
    if k > 1 {
        lemma_cascade_path_is_safe(board, seeds, path, k - 1);
        assert(cascade_step(board, path, k - 1));
    }
    lemma_open_ground_is_safe(board, path[k - 1], path[k]);
}

/// A cascade that starts on free cells without touching bombs reveals no
/// bomb; and since it reveals hidden cells only, it reveals no flagged cell.
pub proof fn lemma_cascade_spares_bombs(board: BoardView, seeds: Set<(i32, i32)>, p: (i32, i32))
    requires
        board.wf(),
        forall|s: (i32, i32)|
            seeds.contains(s) ==> board.contains(s) && !board.at(s).is_bomb && board.at(
                s,
            ).neighbor_bombs == 0,
        cascade_reaches(board, seeds, p),
    ensures
        !board.at(p).is_bomb,
        board.at(p).state == CellState::Hidden,
{
    let path = choose|path: Seq<(i32, i32)>| #[trigger]
        is_cascade_path(board, seeds, path) && path.last() == p;
    lemma_cascade_path_is_safe(board, seeds, path, path.len() - 1);
    assert(cascade_step(board, path, path.len() - 1));
}

/// A board on which every cell is hidden is settled: it has no open ground.
pub proof fn lemma_hidden_board_is_settled(board: BoardView)
    requires
        board.wf(),
        board.all_hidden(),
    ensures
        board.settled(),
{
    assert forall|q: (i32, i32), n: (i32, i32)|
        #![trigger board.is_open_ground(q), board.covered(n)]
        board.is_open_ground(q) && adjacent(q, n) implies !board.covered(n) by {
        lemma_cell_at_position(board, q);
    }
}

/// On a settled board the cascade over the whole board changes nothing.
pub proof fn lemma_settled_board_stays(board: BoardView)
    requires
        board.wf(),
        board.settled(),
    ensures
        board.auto_revealed() == board,
{
    let seeds = board.open_ground();
    assert forall|i: int| 0 <= i < board.cells.len() implies !cascade_reaches(
        board,
        seeds,
        board.cells[i].position,
    ) by {
        let p = board.cells[i].position;
        if cascade_reaches(board, seeds, p) {
            let path = choose|path: Seq<(i32, i32)>| #[trigger]
                is_cascade_path(board, seeds, path) && path.last() == p;
            assert(cascade_step(board, path, 1));
            assert(board.is_open_ground(path[0]) && board.covered(path[1]));
        }
    }
    assert(board.auto_revealed().cells =~= board.cells);
}

/// The cascade over the whole board leaves the board settled.
pub proof fn lemma_auto_reveal_settles(board: BoardView)
    requires
        board.wf(),
    ensures
        board.auto_revealed().wf(),
        board.auto_revealed().settled(),
{
    let seeds = board.open_ground();
    let after = board.auto_revealed();
    lemma_same_facts_wf(board, after);
    assert forall|q: (i32, i32), n: (i32, i32)|
        #![trigger after.is_open_ground(q), after.covered(n)]
        after.is_open_ground(q) && adjacent(q, n) implies !after.covered(n) by {
        if after.covered(n) {
            lemma_cascade_at(board, seeds, q);
            lemma_cascade_at(board, seeds, n);
            if board.at(q).state == CellState::Revealed {
                assert(board.is_open_ground(q));
                lemma_cascade_from_seed(board, seeds, q, n);
            } else {
                lemma_cascade_extends(board, seeds, q, n);
            }
        }
    }
}

/// Running the cascade over the whole board a second time changes nothing.
pub proof fn lemma_auto_reveal_idempotent(board: BoardView)
    requires
        board.wf(),
    ensures
        board.auto_revealed().auto_revealed() == board.auto_revealed(),
{
    lemma_auto_reveal_settles(board);
    lemma_settled_board_stays(board.auto_revealed());
}

/// The cascade over the whole board reveals hidden free cells and nothing
/// else: no bomb, no flagged cell, and no cell changes in any other way.
pub proof fn lemma_auto_reveal_spares_bombs(board: BoardView, q: (i32, i32))
    requires
        board.wf(),
        board.contains(q),
        board.auto_revealed().at(q) != board.at(q),
    ensures
        board.at(q).state == CellState::Hidden,
        !board.at(q).is_bomb,
        board.auto_revealed().at(q) == board.at(q).with_state(CellState::Revealed),
{
    lemma_cascade_at(board, board.open_ground(), q);
    lemma_cascade_spares_bombs(board, board.open_ground(), q);
}

} // verus!
