//! A single cell: its states, the two transitions a player can ask for, and
//! how it is shown.

use vstd::prelude::*;

verus! {

/// The four states of a cell.
#[derive(Clone, Copy, Debug, PartialEq, Eq, Structural)]
pub enum CellState {
    /// Not yet touched: the state every cell starts in.
    Hidden,
    /// A bomb that was revealed. Nothing changes this state again.
    Exploded,
    /// Marked by the player, and thereby protected from being revealed.
    Flagged,
    /// A free cell that was revealed.
    Revealed,
}

impl CellState {
    /// The state after the player toggles the flag: `Hidden` and `Flagged`
    /// swap, the other two states stay.
    pub open spec fn flag_toggled(self) -> CellState {
        match self {
            CellState::Hidden => CellState::Flagged,
            CellState::Flagged => CellState::Hidden,
            CellState::Revealed => CellState::Revealed,
            CellState::Exploded => CellState::Exploded,
        }
    }
}

/// The colours a cell is drawn in.
#[derive(Clone, Copy, Debug, PartialEq, Eq, Structural)]
pub enum CellColor {
    /// Opaque white.
    White,
    /// Opaque red.
    Red,
    /// Opaque blue.
    Blue,
    /// Fully transparent.
    Clear,
    /// Opaque olive, for a hidden cell under the pointer.
    Olive,
}

/// What is written on a cell.
#[derive(Clone, Copy, Debug, PartialEq, Eq)]
pub enum Glyph {
    /// Nothing.
    Blank,
    /// The number of bombs that touch the cell.
    Count(u8),
    /// The mark of a flagged cell.
    Flag,
    /// The mark of an exploded bomb.
    Bomb,
}

/// One cell of the board: its state and the facts fixed when the board was
/// laid out.
#[derive(Clone, Copy, Debug, PartialEq, Eq)]
pub struct Cell {
    pub state: CellState,
    pub is_bomb: bool,
    /// The cell's coordinate `(x, y)`.
    pub position: (i32, i32),
    /// The number of bombs that touch the cell; zero for a bomb.
    pub neighbor_bombs: u8,
}

impl Cell {
    /// This cell in another state.
    pub open spec fn with_state(self, state: CellState) -> Cell {
        Cell { state, ..self }
    }

    /// The cell after an attempt to reveal it: a hidden bomb explodes, a
    /// hidden free cell is revealed, and a cell in any other state stays as
    /// it is.
    pub open spec fn revealed(self) -> Cell {
        if self.state != CellState::Hidden {
            self
        } else if self.is_bomb {
            self.with_state(CellState::Exploded)
        } else {
            self.with_state(CellState::Revealed)
        }
    }

    /// The cell after the player toggles its flag.
    pub open spec fn flag_toggled(self) -> Cell {
        self.with_state(self.state.flag_toggled())
    }

    /// The colour that stands for the cell's state.
    pub open spec fn color(self) -> CellColor {
        match self.state {
            CellState::Hidden => CellColor::White,
            CellState::Exploded => CellColor::Red,
            CellState::Flagged => CellColor::Blue,
            CellState::Revealed => CellColor::Clear,
        }
    }

    /// What is written on the cell.
    pub open spec fn label(self) -> Glyph {
        match self.state {
            CellState::Revealed => if self.neighbor_bombs > 0 {
                Glyph::Count(self.neighbor_bombs)
            } else {
                Glyph::Blank
            },
            CellState::Flagged => Glyph::Flag,
            CellState::Exploded => Glyph::Bomb,
            CellState::Hidden => Glyph::Blank,
        }
    }

    /// Tries to reveal the cell.
    pub fn try_reveal(&mut self)
        ensures
            *final(self) == old(self).revealed(),
    {
        if self.state == CellState::Hidden {
            if self.is_bomb {
                self.state = CellState::Exploded;
            } else {
                self.state = CellState::Revealed;
            }
        }
    }

    /// Sets a flag on a hidden cell, or takes it off a flagged one.
    pub fn toggle_flag(&mut self)
        ensures
            *final(self) == old(self).flag_toggled(),
    {
        self.state =
        match self.state {
            CellState::Hidden => CellState::Flagged,
            CellState::Flagged => CellState::Hidden,
            _ => self.state,
        };
    }

    /// The colour that stands for the cell's state.
    pub fn get_color(&self) -> (color: CellColor)
        ensures
            color == self.color(),
    {
        match self.state {
            CellState::Hidden => CellColor::White,
            CellState::Exploded => CellColor::Red,
            CellState::Flagged => CellColor::Blue,
            CellState::Revealed => CellColor::Clear,
        }
    }

    /// The colour to draw the cell in: a hidden cell under the pointer is
    /// highlighted, every other cell has the colour of its state.
    pub fn display_color(&self, hovered: bool) -> (color: CellColor)
        ensures
            color == (if self.state == CellState::Hidden && hovered {
                CellColor::Olive
            } else {
                self.color()
            }),
    {
        if self.state == CellState::Hidden && hovered {
            CellColor::Olive
        } else {
            self.get_color()
        }
    }

    /// What to write on the cell: the neighbour count of a revealed cell
    /// that touches a bomb, a mark on a flagged or exploded cell, nothing
    /// otherwise.
    pub fn glyph(&self) -> (glyph: Glyph)
        ensures
            glyph == self.label(),
    {
        match self.state {
            CellState::Revealed => {
                if self.neighbor_bombs > 0 {
                    Glyph::Count(self.neighbor_bombs)
                } else {
                    Glyph::Blank
                }
            },
            CellState::Flagged => Glyph::Flag,
            CellState::Exploded => Glyph::Bomb,
            _ => Glyph::Blank,
        }
    }
}

impl Default for Cell {
    fn default() -> (cell: Self)
        ensures
            cell == (Cell {
                state: CellState::Hidden,
                is_bomb: false,
                position: (0i32, 0i32),
                neighbor_bombs: 0,
            }),
    {
        Self { state: CellState::Hidden, is_bomb: false, position: (0, 0), neighbor_bombs: 0 }
    }
}

/// Toggling the flag twice gives back the cell as it was, whatever its state.
pub proof fn lemma_toggle_flag_twice(cell: Cell)
    ensures
        cell.flag_toggled().flag_toggled() == cell,
{
}

/// A flag goes onto a hidden cell and comes off a flagged one, and a flagged
/// cell is not revealed.
pub proof fn lemma_flag_protects(cell: Cell)
    ensures
        cell.state == CellState::Hidden ==> cell.flag_toggled().state == CellState::Flagged,
        cell.state == CellState::Flagged ==> cell.flag_toggled().state == CellState::Hidden,
        cell.state == CellState::Flagged ==> cell.revealed() == cell,
{
}

/// An exploded cell is final: neither operation changes it.
pub proof fn lemma_exploded_is_final(cell: Cell)
    requires
        cell.state == CellState::Exploded,
    ensures
        cell.revealed() == cell,
        cell.flag_toggled() == cell,
{
}

} // verus!
