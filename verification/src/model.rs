//! The board as a mathematical value, and what makes it well formed.

use crate::board::{
    bomb_total, cell_index, in_grid, lemma_bomb_total_bounded, lemma_cell_index_in_range,
    lemma_cell_index_injective, neighbor_count,
};
use crate::cell::{Cell, CellState};
use vstd::prelude::*;

verus! {

/// The board as a mathematical value: its dimensions, the number of bombs
/// and the cells row by row.
#[verifier::ext_equal]
pub struct BoardView {
    pub width: int,
    pub height: int,
    pub bomb_count: int,
    pub cells: Seq<Cell>,
}

impl BoardView {
    /// Whether `p` is a coordinate of the board.
    pub open spec fn contains(self, p: (i32, i32)) -> bool {
        in_grid(self.width, self.height, p.0 as int, p.1 as int)
    }

    /// Where the cell at `p` stands in `cells`.
    pub open spec fn index_of(self, p: (i32, i32)) -> int {
        cell_index(self.width, p.0 as int, p.1 as int)
    }

    /// The cell at `p`.
    pub open spec fn at(self, p: (i32, i32)) -> Cell {
        self.cells[self.index_of(p)]
    }

    /// Which cells hold a bomb, row by row.
    pub open spec fn layout(self) -> Seq<bool> {
        Seq::new(self.cells.len(), |i: int| self.cells[i].is_bomb)
    }

    /// The fixed facts of the cell with index `i` are right: it records its
    /// own coordinate and the neighbour count that the layout gives it.
    pub open spec fn cell_wf(self, i: int) -> bool {
        let cell = self.cells[i];
        &&& self.contains(cell.position)
        &&& self.index_of(cell.position) == i
        &&& cell.neighbor_bombs == neighbor_count(
            self.width,
            self.height,
            self.layout(),
            cell.position.0 as int,
            cell.position.1 as int,
        )
    }

    /// The invariant of a board: positive dimensions whose coordinates fit
    /// the cells' `i32` positions, one cell per coordinate, the bomb count
    /// of the layout, and right facts in every cell.
    pub open spec fn wf(self) -> bool {
        &&& 0 < self.width <= i32::MAX
        &&& 0 < self.height <= i32::MAX
        &&& self.cells.len() == self.width * self.height
        &&& self.bomb_count == bomb_total(self.layout())
        &&& forall|i: int| 0 <= i < self.cells.len() ==> #[trigger] self.cell_wf(i)
    }

    /// Whether every cell is still hidden.
    pub open spec fn all_hidden(self) -> bool {
        forall|i: int| 0 <= i < self.cells.len() ==> (#[trigger] self.cells[i]).state == CellState::Hidden
    }

    /// The board with `cell` in the place of the cell at `p`.
    pub open spec fn with_cell(self, p: (i32, i32), cell: Cell) -> BoardView {
        BoardView { cells: self.cells.update(self.index_of(p), cell), ..self }
    }

    /// Whether `other` is this board with some cells in other states: the
    /// same dimensions, bombs, positions and neighbour counts.
    pub open spec fn same_facts(self, other: BoardView) -> bool {
        &&& other.width == self.width
        &&& other.height == self.height
        &&& other.bomb_count == self.bomb_count
        &&& other.cells.len() == self.cells.len()
        &&& forall|i: int|
            0 <= i < self.cells.len() ==> #[trigger] other.cells[i] == self.cells[i].with_state(
                other.cells[i].state,
            )
    }
}

/// On a well-formed board the cell found at a coordinate records that
/// coordinate, and its index lies within the cell sequence.
pub proof fn lemma_cell_at_position(board: BoardView, p: (i32, i32))
    requires
        board.wf(),
        board.contains(p),
    ensures
        0 <= board.index_of(p) < board.cells.len(),
        board.at(p).position == p,
        board.at(p).neighbor_bombs == neighbor_count(
            board.width,
            board.height,
            board.layout(),
            p.0 as int,
            p.1 as int,
        ),
{
    lemma_cell_index_in_range(board.width, board.height, p.0 as int, p.1 as int);
    let i = board.index_of(p);
    assert(board.cell_wf(i));
    let q = board.cells[i].position;
    lemma_cell_index_injective(board.width, q.0 as int, q.1 as int, p.0 as int, p.1 as int);
}

/// Changing the states of cells keeps a board well formed.
pub proof fn lemma_same_facts_wf(board: BoardView, other: BoardView)
    requires
        board.wf(),
        board.same_facts(other),
    ensures
        other.wf(),
{
    assert(other.layout() =~= board.layout());
    assert forall|i: int| 0 <= i < other.cells.len() implies #[trigger] other.cell_wf(i) by {
        assert(board.cell_wf(i));
    }
}

/// A well-formed board holds between zero and `width * height` bombs.
pub proof fn lemma_bomb_count_bounded(board: BoardView)
    requires
        board.wf(),
    ensures
        0 <= board.bomb_count <= board.width * board.height,
{
    lemma_bomb_total_bounded(board.layout());
}

/// Replacing the cell at `p` changes what is found at `p` and at no other
/// coordinate of the board.
pub proof fn lemma_with_cell_at(board: BoardView, p: (i32, i32), cell: Cell, q: (i32, i32))
    requires
        board.wf(),
        board.contains(p),
        board.contains(q),
    ensures
        board.with_cell(p, cell).at(q) == (if q == p {
            cell
        } else {
            board.at(q)
        }),
{
    lemma_cell_at_position(board, p);
    lemma_cell_at_position(board, q);
    if board.index_of(q) == board.index_of(p) {
        lemma_cell_index_injective(board.width, q.0 as int, q.1 as int, p.0 as int, p.1 as int);
    }
}

} // verus!
