//! The player's moves on the board as a mathematical value, and the laws
//! they obey.

use crate::cascade::{
    adjacent, cascade, cascade_reaches, lemma_cascade_at, lemma_cascade_spares_bombs,
    lemma_cascade_spreads,
};
use crate::cell::CellState;
use crate::model::{lemma_cell_at_position, lemma_same_facts_wf, lemma_with_cell_at, BoardView};
use vstd::prelude::*;

verus! {

impl BoardView {
    /// The board after an attempt to reveal the cell at `p`: the cell goes
    /// through its own transition, and if it was hidden, is free and no bomb
    /// touches it, a cascade starts from it.
    pub open spec fn revealed_at(self, p: (i32, i32)) -> BoardView {
        let opened = self.with_cell(p, self.at(p).revealed());
        if self.at(p).state == CellState::Hidden && !self.at(p).is_bomb && self.at(
            p,
        ).neighbor_bombs == 0 {
            cascade(opened, set![p])
        } else {
            opened
        }
    }

    /// The board after the player toggles the flag on the cell at `p`.
    pub open spec fn flag_toggled_at(self, p: (i32, i32)) -> BoardView {
        self.with_cell(p, self.at(p).flag_toggled())
    }

    /// The board after a click on the cell at `p`: the left button tries to
    /// reveal a hidden cell; otherwise the right button toggles the flag;
    /// otherwise nothing happens.
    pub open spec fn clicked_at(self, p: (i32, i32), left_pressed: bool, right_pressed: bool) -> BoardView {
        if left_pressed && self.at(p).state == CellState::Hidden {
            self.revealed_at(p)
        } else if right_pressed {
            self.flag_toggled_at(p)
        } else {
            self
        }
    }
}

/// Revealing a hidden bomb makes that one cell explode and leaves every
/// other cell as it is.
pub proof fn lemma_reveal_bomb(board: BoardView, p: (i32, i32))
    requires
        board.wf(),
        board.contains(p),
        board.at(p).state == CellState::Hidden,
        board.at(p).is_bomb,
    ensures
        board.revealed_at(p) == board.with_cell(p, board.at(p).with_state(CellState::Exploded)),
        forall|q: (i32, i32)|
            board.contains(q) ==> #[trigger] board.revealed_at(p).at(q) == (if q == p {
                board.at(p).with_state(CellState::Exploded)
            } else {
                board.at(q)
            }),
{
    assert forall|q: (i32, i32)| board.contains(q) implies #[trigger] board.revealed_at(p).at(q)
        == if q == p {
        board.at(p).with_state(CellState::Exploded)
    } else {
        board.at(q)
    } by {
        lemma_with_cell_at(board, p, board.at(p).with_state(CellState::Exploded), q);
    }
}

/// Revealing a hidden free cell that a bomb touches reveals that one cell
/// and leaves every other cell as it is.
pub proof fn lemma_reveal_numbered(board: BoardView, p: (i32, i32))
    requires
        board.wf(),
        board.contains(p),
        board.at(p).state == CellState::Hidden,
        !board.at(p).is_bomb,
        board.at(p).neighbor_bombs != 0,
    ensures
        board.revealed_at(p) == board.with_cell(p, board.at(p).with_state(CellState::Revealed)),
        forall|q: (i32, i32)|
            board.contains(q) ==> #[trigger] board.revealed_at(p).at(q) == (if q == p {
                board.at(p).with_state(CellState::Revealed)
            } else {
                board.at(q)
            }),
{
    assert forall|q: (i32, i32)| board.contains(q) implies #[trigger] board.revealed_at(p).at(q)
        == if q == p {
        board.at(p).with_state(CellState::Revealed)
    } else {
        board.at(q)
    } by {
        lemma_with_cell_at(board, p, board.at(p).with_state(CellState::Revealed), q);
    }
}

/// Revealing a cell that is flagged, revealed or exploded changes nothing.
pub proof fn lemma_reveal_needs_hidden(board: BoardView, p: (i32, i32))
    requires
        board.wf(),
        board.contains(p),
        board.at(p).state != CellState::Hidden,
    ensures
        board.revealed_at(p) == board,
{
    lemma_cell_at_position(board, p);
    assert(board.revealed_at(p).cells =~= board.cells);
}

/// Revealing a hidden free cell that no bomb touches cascades. The cell
/// itself is revealed. From it the reveal runs over touching hidden cells:
/// every hidden cell that a chain of cells without touching bombs links to
/// it is revealed, the cells on the rim of that region included, and every
/// other cell stays as it is. No bomb and no flagged cell is revealed.
pub proof fn lemma_reveal_cascades(board: BoardView, p: (i32, i32))
    requires
        board.wf(),
        board.contains(p),
        board.at(p).state == CellState::Hidden,
        !board.at(p).is_bomb,
        board.at(p).neighbor_bombs == 0,
    ensures
        ({
            let opened = board.with_cell(p, board.at(p).with_state(CellState::Revealed));
            &&& board.revealed_at(p) == cascade(opened, set![p])
            &&& board.revealed_at(p).wf()
            &&& forall|q: (i32, i32)|
                board.contains(q) ==> #[trigger] board.revealed_at(p).at(q) == if q == p
                    || (board.at(q).state == CellState::Hidden && cascade_reaches(
                    opened,
                    set![p],
                    q,
                )) {
                    board.at(q).with_state(CellState::Revealed)
                } else {
                    board.at(q)
                }
            &&& forall|q: (i32, i32)|
                board.contains(q) && #[trigger] board.revealed_at(p).at(q).state
                    != board.at(q).state ==> !board.at(q).is_bomb && board.at(q).state
                    == CellState::Hidden
        }),
{
    let opened = board.with_cell(p, board.at(p).with_state(CellState::Revealed));
    let seeds = set![p];
    lemma_cell_at_position(board, p);
    assert(board.same_facts(opened));
    lemma_same_facts_wf(board, opened);
    lemma_with_cell_at(board, p, board.at(p).with_state(CellState::Revealed), p);
    assert forall|q: (i32, i32)| board.contains(q) implies #[trigger] board.revealed_at(p).at(q)
        == (if q == p || (board.at(q).state == CellState::Hidden && cascade_reaches(
        opened,
        seeds,
        q,
    )) {
        board.at(q).with_state(CellState::Revealed)
    } else {
        board.at(q)
    }) && (board.revealed_at(p).at(q).state != board.at(q).state ==> !board.at(q).is_bomb
        && board.at(q).state == CellState::Hidden) by {
        lemma_with_cell_at(board, p, board.at(p).with_state(CellState::Revealed), q);
        lemma_cascade_at(opened, seeds, q);
        if q != p && opened.covered(q) && cascade_reaches(opened, seeds, q) {
            lemma_cascade_spares_bombs(opened, seeds, q);
        }
    }
    lemma_cascade_at(opened, seeds, p);
}

/// Toggling the flag changes the cell at `p` as the cell's own transition
/// says, and leaves every other cell as it is.
pub proof fn lemma_toggle_flag_at(board: BoardView, p: (i32, i32))
    requires
        board.wf(),
        board.contains(p),
    ensures
        forall|q: (i32, i32)|
            board.contains(q) ==> #[trigger] board.flag_toggled_at(p).at(q) == (if q == p {
                board.at(p).flag_toggled()
            } else {
                board.at(q)
            }),
{
    assert forall|q: (i32, i32)| board.contains(q) implies #[trigger] board.flag_toggled_at(p).at(
        q,
    ) == if q == p {
        board.at(p).flag_toggled()
    } else {
        board.at(q)
    } by {
        lemma_with_cell_at(board, p, board.at(p).flag_toggled(), q);
    }
}

/// Toggling the flag on a cell of the board twice gives back the board as it
/// was.
pub proof fn lemma_toggle_flag_twice_at(board: BoardView, p: (i32, i32))
    requires
        board.wf(),
        board.contains(p),
    ensures
        board.flag_toggled_at(p).flag_toggled_at(p) == board,
{
    lemma_cell_at_position(board, p);
    assert(board.flag_toggled_at(p).flag_toggled_at(p).cells =~= board.cells);
}

/// An exploded cell is final: neither revealing it nor toggling its flag
/// changes the board.
pub proof fn lemma_exploded_is_final_at(board: BoardView, p: (i32, i32))
    requires
        board.wf(),
        board.contains(p),
        board.at(p).state == CellState::Exploded,
    ensures
        board.revealed_at(p) == board,
        board.flag_toggled_at(p) == board,
        forall|left_pressed: bool, right_pressed: bool| #[trigger]
            board.clicked_at(p, left_pressed, right_pressed) == board,
{
    lemma_cell_at_position(board, p);
    assert(board.revealed_at(p).cells =~= board.cells);
    assert(board.flag_toggled_at(p).cells =~= board.cells);
}

/// A reveal finishes its cascade: on a settled board, the board after an
/// attempt to reveal a cell is settled again, so that a cascade over the
/// whole board would change nothing.
pub proof fn lemma_reveal_keeps_settled(board: BoardView, p: (i32, i32))
    requires
        board.wf(),
        board.settled(),
        board.contains(p),
    ensures
        board.revealed_at(p).wf(),
        board.revealed_at(p).settled(),
{
    let opened = board.with_cell(p, board.at(p).revealed());
    let seeds = set![p];
    let after = board.revealed_at(p);
    let cascades = board.at(p).state == CellState::Hidden && !board.at(p).is_bomb && board.at(
        p,
    ).neighbor_bombs == 0;
    lemma_cell_at_position(board, p);
    assert(board.same_facts(opened));
    lemma_same_facts_wf(board, opened);
    lemma_same_facts_wf(opened, after);
    assert forall|q: (i32, i32), n: (i32, i32)|
        #![trigger after.is_open_ground(q), after.covered(n)]
        after.is_open_ground(q) && adjacent(q, n) implies !after.covered(n) by {
        if after.covered(n) {
            lemma_with_cell_at(board, p, board.at(p).revealed(), q);
            lemma_with_cell_at(board, p, board.at(p).revealed(), n);
            if cascades {
                lemma_cascade_at(opened, seeds, q);
                lemma_cascade_at(opened, seeds, n);
                lemma_cascade_at(opened, seeds, p);
            }
            assert(board.covered(n));
            if board.is_open_ground(q) {
                assert(false);
            } else {
                assert(cascades);
                lemma_cascade_spreads(opened, seeds, q, n);
            }
        }
    }
}

} // verus!
