//! The board in play: laying it out, asking about its cells, and the moves
//! that change it.

use crate::board::{
    bomb_total, cell_index, compute_neighbor_counts, generate_bomb_layout, grid_index, in_grid,
    is_in_bounds, lemma_cell_index_in_range, neighbor_count,
};
use crate::cascade::{adjacent, cascade};
use crate::cell::{Cell, CellState};
use crate::error::GameError;
use crate::model::{lemma_cell_at_position, lemma_same_facts_wf, BoardView};
use crate::rng::seeded_rng;
use crate::worklist::{
    cascade_inv, cascade_pending, cascade_queue_ok, cascade_done_around, cascade_sound,
    hidden_total, lemma_cascade_finished, lemma_cascade_release, lemma_cascade_spread_step,
    lemma_cascade_take,
};
use std::collections::VecDeque;
use vstd::prelude::*;

verus! {

/// A game in progress: the grid of cells and the facts it was laid out with.
/// Cells change state only through the board's operations.
#[derive(Debug)]
pub struct Board {
    width: usize,
    height: usize,
    bomb_count: usize,
    cells: Vec<Cell>,
}

impl View for Board {
    type V = BoardView;

    closed spec fn view(&self) -> BoardView {
        BoardView {
            width: self.width as int,
            height: self.height as int,
            bomb_count: self.bomb_count as int,
            cells: self.cells@,
        }
    }
}

/// Whether a grid of these dimensions can be laid out: both are positive,
/// every coordinate fits an `i32`, and the cells can be counted in a `usize`.
pub open spec fn valid_dimensions(width: int, height: int) -> bool {
    &&& 0 < width <= i32::MAX
    &&& 0 < height <= i32::MAX
    &&& width * height <= usize::MAX
}

/// Whether `cell` is the hidden cell that belongs at index `i` of a fresh
/// board with this layout.
spec fn laid_out(cell: Cell, i: int, width: int, height: int, layout: Seq<bool>) -> bool {
    &&& cell.state == CellState::Hidden
    &&& cell.is_bomb == layout[i]
    &&& in_grid(width, height, cell.position.0 as int, cell.position.1 as int)
    &&& cell_index(width, cell.position.0 as int, cell.position.1 as int) == i
    &&& cell.neighbor_bombs == neighbor_count(
        width,
        height,
        layout,
        cell.position.0 as int,
        cell.position.1 as int,
    )
}

/// Counting the bombs of a layout one cell further.
proof fn lemma_bomb_total_step(layout: Seq<bool>, n: int)
    requires
        0 <= n < layout.len(),
    ensures
        bomb_total(layout.subrange(0, n + 1)) == bomb_total(layout.subrange(0, n)) + (if layout[n] {
            1nat
        } else {
            0nat
        }),
{
    assert(layout.subrange(0, n + 1).drop_last() =~= layout.subrange(0, n));
}

/// The number of cells of a grid, or `InvalidConfiguration` if its dimensions
/// are not valid.
fn cell_total(width: usize, height: usize) -> (result: Result<usize, GameError>)
    ensures
        result is Ok <==> valid_dimensions(width as int, height as int),
        result matches Ok(total) ==> total == width * height,
        result matches Err(e) ==> e == GameError::InvalidConfiguration,
{
    if width == 0 || height == 0 || width > i32::MAX as usize || height > i32::MAX as usize {
        return Err(GameError::InvalidConfiguration);
    }
    match width.checked_mul(height) {
        Some(total) => Ok(total),
        None => Err(GameError::InvalidConfiguration),
    }
}

/// Starts a game on a `width` by `height` board with `bomb_count` bombs,
/// placed by a generator made from `rng_seed`, and every cell hidden. Fails
/// with `InvalidConfiguration` if the dimensions are not valid or the board
/// cannot hold that many bombs.
pub fn new_game(width: usize, height: usize, bomb_count: usize, rng_seed: u64) -> (result: Result<
    Board,
    GameError,
>)
    ensures
        result is Ok <==> valid_dimensions(width as int, height as int) && bomb_count <= width
            * height,
        result matches Err(e) ==> e == GameError::InvalidConfiguration,
        result matches Ok(board) ==> ({
            &&& board.wf()
            &&& board@.width == width
            &&& board@.height == height
            &&& board@.bomb_count == bomb_count
            &&& board@.all_hidden()
        }),
{
    let total = match cell_total(width, height) {
        Ok(total) => total,
        Err(e) => {
            return Err(e);
        },
    };
    let mut rng = seeded_rng(rng_seed);
    let bomb_distribution = match generate_bomb_layout(total, bomb_count, &mut rng) {
        Ok(layout) => layout,
        Err(e) => {
            return Err(e);
        },
    };
    Board::from_layout(width, height, bomb_distribution.as_slice())
}

impl Board {
    /// The invariant of a board, stated on its view.
    pub open spec fn wf(&self) -> bool {
        self@.wf()
    }

    /// Lays out a board with every cell hidden, from the bombs given row by
    /// row. Fails if the dimensions are not valid or the layout does not
    /// have one entry per cell.
    pub fn from_layout(width: usize, height: usize, bomb_distribution: &[bool]) -> (result: Result<
        Board,
        GameError,
    >)
        ensures
            result is Ok <==> valid_dimensions(width as int, height as int)
                && bomb_distribution@.len() == width * height,
            result matches Err(e) ==> e == GameError::InvalidConfiguration,
            result matches Ok(board) ==> ({
                &&& board.wf()
                &&& board@.width == width
                &&& board@.height == height
                &&& board@.layout() == bomb_distribution@
                &&& board@.all_hidden()
            }),
    {
        let total = match cell_total(width, height) {
            Ok(total) => total,
            Err(e) => {
                return Err(e);
            },
        };
        if bomb_distribution.len() != total {
            return Err(GameError::InvalidConfiguration);
        }
        let neighbor_counts = compute_neighbor_counts(width, height, bomb_distribution);
        let ghost layout = bomb_distribution@;
        let mut cells: Vec<Cell> = Vec::new();
        let mut bomb_count: usize = 0;
        let mut y: usize = 0;
        while y < height
            invariant
                valid_dimensions(width as int, height as int),
                layout == bomb_distribution@,
                layout.len() == width * height,
                neighbor_counts@.len() == width * height,
                forall|cx: int, cy: int|
                    in_grid(width as int, height as int, cx, cy) ==> neighbor_counts@[#[trigger] cell_index(
                        width as int,
                        cx,
                        cy,
                    )] == neighbor_count(width as int, height as int, layout, cx, cy),
                y <= height,
                cells@.len() == y * width,
                bomb_count == bomb_total(layout.subrange(0, cells@.len() as int)),
                bomb_count <= cells@.len(),
                forall|i: int|
                    0 <= i < cells@.len() ==> #[trigger] laid_out(
                        cells@[i],
                        i,
                        width as int,
                        height as int,
                        layout,
                    ),
            decreases height - y,
        {
            let mut x: usize = 0;
            while x < width
                invariant
                    valid_dimensions(width as int, height as int),
                    layout == bomb_distribution@,
                    layout.len() == width * height,
                    neighbor_counts@.len() == width * height,
                    forall|cx: int, cy: int|
                        in_grid(width as int, height as int, cx, cy) ==> neighbor_counts@[#[trigger] cell_index(
                            width as int,
                            cx,
                            cy,
                        )] == neighbor_count(width as int, height as int, layout, cx, cy),
                    y < height,
                    x <= width,
                    cells@.len() == y * width + x,
                    bomb_count == bomb_total(layout.subrange(0, cells@.len() as int)),
                    bomb_count <= cells@.len(),
                    forall|i: int|
                        0 <= i < cells@.len() ==> #[trigger] laid_out(
                            cells@[i],
                            i,
                            width as int,
                            height as int,
                            layout,
                        ),
                decreases width - x,
            {
                proof {
                    lemma_cell_index_in_range(width as int, height as int, x as int, y as int);
                    lemma_bomb_total_step(layout, cells@.len() as int);
                }
                let idx = grid_index(width, x, y);
                let is_bomb = bomb_distribution[idx];
                cells.push(
                    Cell {
                        state: CellState::Hidden,
                        is_bomb,
                        position: (x as i32, y as i32),
                        neighbor_bombs: neighbor_counts[idx],
                    },
                );
                if is_bomb {
                    bomb_count = bomb_count + 1;
                }
                assert(laid_out(cells@[idx as int], idx as int, width as int, height as int, layout));
                x = x + 1;
            }
            assert(y * width + width == (y + 1) * width) by (nonlinear_arith);
            y = y + 1;
        }
        let board = Board { width, height, bomb_count, cells };
        proof {
            assert(height * width == width * height) by (nonlinear_arith);
            assert(layout.subrange(0, layout.len() as int) =~= layout);
            assert forall|i: int| 0 <= i < cells@.len() implies (#[trigger] cells@[i]).is_bomb
                == layout[i] && cells@[i].state == CellState::Hidden by {
                assert(laid_out(cells@[i], i, width as int, height as int, layout));
            }
            assert(board@.layout() =~= layout);
            assert forall|i: int| 0 <= i < board@.cells.len() implies #[trigger] board@.cell_wf(
                i,
            ) by {
                assert(laid_out(cells@[i], i, width as int, height as int, layout));
            }
        }
        Ok(board)
    }

    /// The cell at a coordinate of the board has an index that the machine
    /// can hold.
    proof fn lemma_index_fits(&self, p: (i32, i32))
        requires
            self.wf(),
            self@.contains(p),
        ensures
            0 <= self@.index_of(p) < self.cells@.len() <= usize::MAX,
            self.cells@[self@.index_of(p)].position == p,
    {
        lemma_cell_at_position(self@, p);
        assert(self.cells@.len() == self.cells.len());
    }

    /// The number of columns.
    pub fn width(&self) -> (width: usize)
        ensures
            width == self@.width,
    {
        self.width
    }

    /// The number of rows.
    pub fn height(&self) -> (height: usize)
        ensures
            height == self@.height,
    {
        self.height
    }

    /// The number of bombs on the board.
    pub fn bomb_count(&self) -> (bomb_count: usize)
        ensures
            bomb_count == self@.bomb_count,
    {
        self.bomb_count
    }

    /// The cell at `(x, y)`, or `OutOfBounds` for a coordinate off the board.
    pub fn cell(&self, x: i32, y: i32) -> (result: Result<Cell, GameError>)
        requires
            self.wf(),
        ensures
            result == (if self@.contains((x, y)) {
                Ok::<Cell, GameError>(self@.at((x, y)))
            } else {
                Err::<Cell, GameError>(GameError::OutOfBounds)
            }),
    {
        if !is_in_bounds(self.width, self.height, x, y) {
            return Err(GameError::OutOfBounds);
        }
        proof {
            self.lemma_index_fits((x, y));
        }
        Ok(self.cells[grid_index(self.width, x as usize, y as usize)])
    }

    /// Sets a flag on the hidden cell at `(x, y)` or takes the flag off a
    /// flagged one; a revealed or exploded cell stays as it is. Fails with
    /// `OutOfBounds`, changing nothing, for a coordinate off the board.
    pub fn toggle_flag(&mut self, x: i32, y: i32) -> (result: Result<(), GameError>)
        requires
            old(self).wf(),
        ensures
            final(self).wf(),
            old(self)@.contains((x, y)) ==> result is Ok && final(self)@ == old(self)@.flag_toggled_at(
                (x, y),
            ),
            !old(self)@.contains((x, y)) ==> result == Err::<(), GameError>(GameError::OutOfBounds)
                && final(self)@ == old(self)@,
    {
        if !is_in_bounds(self.width, self.height, x, y) {
            return Err(GameError::OutOfBounds);
        }
        proof {
            self.lemma_index_fits((x, y));
        }
        let idx = grid_index(self.width, x as usize, y as usize);
        let mut cell = self.cells[idx];
        cell.toggle_flag();
        self.cells[idx] = cell;
        proof {
            lemma_same_facts_wf(old(self)@, self@);
        }
        Ok(())
    }
}

impl Board {
    /// Reveals the cell `n` next to `origin` if it is hidden, and queues it if
    /// no bomb touches it.
    fn spread_to(
        &mut self,
        queue: &mut VecDeque<(i32, i32)>,
        n: (i32, i32),
        Ghost(board): Ghost<BoardView>,
        Ghost(seeds): Ghost<Set<(i32, i32)>>,
        Ghost(origin): Ghost<(i32, i32)>,
    )
        requires
            cascade_inv(board, seeds, old(self)@, old(queue)@, origin),
            adjacent(origin, n),
            board.contains(n),
        ensures
            cascade_inv(board, seeds, final(self)@, final(queue)@, origin),
            board.covered(n) ==> final(self)@.at(n).state == CellState::Revealed,
            forall|m: (i32, i32)|
                board.contains(m) && old(self)@.at(m).state == CellState::Revealed ==> (
                #[trigger] final(self)@.at(m)).state == CellState::Revealed,
            hidden_total(final(self)@.cells) < hidden_total(old(self)@.cells) || (final(self)@ == old(
                self,
            )@ && final(queue)@ == old(queue)@),
    {
        proof {
            lemma_same_facts_wf(board, self@);
            self.lemma_index_fits(n);
            lemma_cell_at_position(board, n);
        }
        let idx = grid_index(self.width, n.0 as usize, n.1 as usize);
        let cell = self.cells[idx];
        if cell.state == CellState::Hidden {
            proof {
                lemma_cascade_spread_step(board, seeds, self@, queue@, origin, n);
            }
            self.cells[idx] =
            Cell {
                state: CellState::Revealed,
                is_bomb: cell.is_bomb,
                position: cell.position,
                neighbor_bombs: cell.neighbor_bombs,
            };
            if cell.neighbor_bombs == 0 {
                queue.push_back(n);
            }
        } else {
            assert(self@.cells[idx as int].state == board.cells[idx as int].state
                || self@.cells[idx as int].state == CellState::Revealed);
        }
    }

    /// Runs a cascade from the cells in `queue` until no work is left.
    fn cascade_from(&mut self, queue: VecDeque<(i32, i32)>, Ghost(seeds): Ghost<Set<(i32, i32)>>)
        requires
            old(self).wf(),
            forall|s: (i32, i32)| seeds.contains(s) <==> queue@.contains(s),
            forall|s: (i32, i32)| seeds.contains(s) ==> old(self)@.contains(s),
        ensures
            final(self).wf(),
            final(self)@ == cascade(old(self)@, seeds),
    {
        let mut queue = queue;
        let ghost board = self@;
        proof {
            assert(cascade_queue_ok(board, seeds, queue@)) by {
                assert forall|j: int| 0 <= j < queue@.len() implies seeds.contains(
                    #[trigger] queue@[j],
                ) by {
                    assert(queue@.contains(queue@[j]));
                }
            }
        }
        while queue.len() > 0
            invariant
                board.wf(),
                forall|s: (i32, i32)| seeds.contains(s) ==> board.contains(s),
                cascade_sound(board, seeds, self@),
                cascade_queue_ok(board, seeds, queue@),
                cascade_pending(board, seeds, self@, queue@),
            decreases hidden_total(self@.cells), queue@.len(),
        {
            let ghost before = self@;
            let ghost waiting = queue@;
            if let Some(pos) = queue.pop_front() {
                proof {
                    lemma_cascade_take(board, seeds, self@, waiting);
                }
                let ghost rest = queue@;
                let mut dx: i32 = -1;
                while dx <= 1
                    invariant
                        -1 <= dx <= 2,
                        cascade_inv(board, seeds, self@, queue@, pos),
                        forall|n: (i32, i32)|
                            adjacent(pos, n) && n.0 - pos.0 < dx && #[trigger] board.covered(n)
                                ==> self@.at(n).state == CellState::Revealed,
                        hidden_total(self@.cells) < hidden_total(before.cells) || (self@ == before
                            && queue@ == rest),
                    decreases 2 - dx,
                {
                    let mut dy: i32 = -1;
                    while dy <= 1
                        invariant
                            -1 <= dx <= 1,
                            -1 <= dy <= 2,
                            cascade_inv(board, seeds, self@, queue@, pos),
                            forall|n: (i32, i32)|
                                adjacent(pos, n) && (n.0 - pos.0 < dx || (n.0 - pos.0 == dx && n.1
                                    - pos.1 < dy)) && #[trigger] board.covered(n) ==> self@.at(
                                    n,
                                ).state == CellState::Revealed,
                            hidden_total(self@.cells) < hidden_total(before.cells) || (self@
                                == before && queue@ == rest),
                        decreases 2 - dy,
                    {
                        if !(dx == 0 && dy == 0) {
                            let nx = pos.0 + dx;
                            let ny = pos.1 + dy;
                            if is_in_bounds(self.width, self.height, nx, ny) {
                                self.spread_to(
                                    &mut queue,
                                    (nx, ny),
                                    Ghost(board),
                                    Ghost(seeds),
                                    Ghost(pos),
                                );
                            }
                        }
                        dy = dy + 1;
                    }
                    dx = dx + 1;
                }
                proof {
                    assert(cascade_done_around(board, self@, pos));
                    lemma_cascade_release(board, seeds, self@, queue@, pos);
                }
            }
        }
        proof {
            assert(queue@ =~= Seq::empty());
            lemma_cascade_finished(board, seeds, self@);
            lemma_same_facts_wf(board, self@);
        }
    }

    /// Tries to reveal the cell at `(x, y)`. A hidden bomb explodes; a hidden
    /// free cell is revealed, and if no bomb touches it the reveal cascades
    /// over the hidden cells around it. A flagged, revealed or exploded cell
    /// stays as it is. Fails with `OutOfBounds`, changing nothing, for a
    /// coordinate off the board.
    pub fn try_reveal(&mut self, x: i32, y: i32) -> (result: Result<(), GameError>)
        requires
            old(self).wf(),
        ensures
            final(self).wf(),
            old(self)@.contains((x, y)) ==> result is Ok && final(self)@ == old(self)@.revealed_at(
                (x, y),
            ),
            !old(self)@.contains((x, y)) ==> result == Err::<(), GameError>(GameError::OutOfBounds)
                && final(self)@ == old(self)@,
    {
        if !is_in_bounds(self.width, self.height, x, y) {
            return Err(GameError::OutOfBounds);
        }
        proof {
            self.lemma_index_fits((x, y));
        }
        let idx = grid_index(self.width, x as usize, y as usize);
        let mut cell = self.cells[idx];
        let starts_cascade = cell.state == CellState::Hidden && !cell.is_bomb && cell.neighbor_bombs
            == 0;
        cell.try_reveal();
        self.cells[idx] = cell;
        proof {
            lemma_same_facts_wf(old(self)@, self@);
        }
        if starts_cascade {
            let ghost seeds = set![(x, y)];
            let mut queue: VecDeque<(i32, i32)> = VecDeque::new();
            queue.push_back((x, y));
            proof {
                assert(queue@[0] == (x, y));
            }
            self.cascade_from(queue, Ghost(seeds));
        }
        Ok(())
    }

    /// Handles a click on the cell at `(x, y)`. With the left button pressed
    /// on a hidden cell, the cell is revealed as `try_reveal` does; otherwise,
    /// with the right button pressed, its flag is toggled; otherwise nothing
    /// happens. Fails with `OutOfBounds`, changing nothing, for a coordinate
    /// off the board.
    pub fn click_system(&mut self, x: i32, y: i32, left_pressed: bool, right_pressed: bool) -> (result:
        Result<(), GameError>)
        requires
            old(self).wf(),
        ensures
            final(self).wf(),
            old(self)@.contains((x, y)) ==> result is Ok && final(self)@ == old(self)@.clicked_at(
                (x, y),
                left_pressed,
                right_pressed,
            ),
            !old(self)@.contains((x, y)) ==> result == Err::<(), GameError>(GameError::OutOfBounds)
                && final(self)@ == old(self)@,
    {
        let cell = match self.cell(x, y) {
            Ok(cell) => cell,
            Err(e) => {
                return Err(e);
            },
        };
        if left_pressed && cell.state == CellState::Hidden {
            self.try_reveal(x, y)
        } else if right_pressed {
            self.toggle_flag(x, y)
        } else {
            Ok(())
        }
    }

    /// Runs the cascade from all the open ground of the board: from every
    /// revealed free cell that no bomb touches, the hidden cells around it
    /// are revealed, and so on from each of those that no bomb touches.
    pub fn auto_reveal(&mut self)
        requires
            old(self).wf(),
        ensures
            final(self).wf(),
            final(self)@ == old(self)@.auto_revealed(),
    {
        let ghost board = self@;
        let mut queue: VecDeque<(i32, i32)> = VecDeque::new();
        let mut i: usize = 0;
        while i < self.cells.len()
            invariant
                self@ == board,
                board.wf(),
                i <= self.cells@.len(),
                forall|j: int|
                    0 <= j < queue@.len() ==> board.open_ground().contains(#[trigger] queue@[j]),
                forall|k: int|
                    0 <= k < i && board.open_ground().contains((#[trigger] board.cells[k]).position)
                        ==> queue@.contains(board.cells[k].position),
            decreases self.cells@.len() - i,
        {
            let cell = self.cells[i];
            assert(board.cell_wf(i as int));
            if cell.state == CellState::Revealed && cell.neighbor_bombs == 0 && !cell.is_bomb {
                let ghost waiting = queue@;
                queue.push_back(cell.position);
                proof {
                    assert(queue@[waiting.len() as int] == cell.position);
                    assert forall|k: int|
                        0 <= k < i && board.open_ground().contains(
                            (#[trigger] board.cells[k]).position,
                        ) implies queue@.contains(board.cells[k].position) by {
                        let j = choose|j: int|
                            0 <= j < waiting.len() && waiting[j] == board.cells[k].position;
                        assert(queue@[j] == board.cells[k].position);
                    }
                }
            }
            i = i + 1;
        }
        proof {
            assert forall|s: (i32, i32)| board.open_ground().contains(s) implies queue@.contains(
                s,
            ) by {
                lemma_cell_at_position(board, s);
                assert(board.cells[board.index_of(s)].position == s);
            }
        }
        self.cascade_from(queue, Ghost(board.open_ground()));
    }
}

} // verus!
