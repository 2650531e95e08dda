use minesweeper::cell::CellState;
use minesweeper::error::GameError;
use minesweeper::game::{new_game, Board};

fn board_with_bombs(width: usize, height: usize, bombs: &[(usize, usize)]) -> Board {
    let mut layout = vec![false; width * height];
    for (x, y) in bombs {
        layout[y * width + x] = true;
    }
    Board::from_layout(width, height, &layout).unwrap()
}

fn states(board: &Board) -> Vec<CellState> {
    let mut all = Vec::new();
    for y in 0..board.height() as i32 {
        for x in 0..board.width() as i32 {
            all.push(board.cell(x, y).unwrap().state);
        }
    }
    all
}

fn state_at(board: &Board, x: i32, y: i32) -> CellState {
    board.cell(x, y).unwrap().state
}

#[test]
fn revealing_a_corner_opens_all_but_the_bomb() {
    let mut board = board_with_bombs(3, 3, &[(2, 2)]);
    assert_eq!(board.try_reveal(0, 0), Ok(()));
    for (x, y) in [(0, 0), (0, 1), (1, 0), (1, 1), (0, 2), (1, 2), (2, 0), (2, 1)] {
        assert_eq!(state_at(&board, x, y), CellState::Revealed);
    }
    assert_eq!(state_at(&board, 2, 2), CellState::Hidden);
    // The bomb touches (1, 1), (1, 2) and (2, 1), and no other cell.
    for (x, y) in [(0, 0), (0, 1), (1, 0), (0, 2), (2, 0)] {
        assert_eq!(board.cell(x, y).unwrap().neighbor_bombs, 0);
    }
    for (x, y) in [(1, 1), (1, 2), (2, 1)] {
        assert_eq!(board.cell(x, y).unwrap().neighbor_bombs, 1);
    }
}

#[test]
fn revealing_the_only_bomb_leaves_the_rest_hidden() {
    let mut board = board_with_bombs(3, 3, &[(2, 2)]);
    assert_eq!(board.try_reveal(2, 2), Ok(()));
    for y in 0..3 {
        for x in 0..3 {
            let expected = if (x, y) == (2, 2) { CellState::Exploded } else { CellState::Hidden };
            assert_eq!(state_at(&board, x, y), expected);
        }
    }
}

/// The states after a cascade, computed cell by cell without a queue: a
/// hidden cell is revealed once it touches a spreading cell, until nothing
/// changes any more.
fn cascade_by_rounds(board: &Board, seeds: &[(i32, i32)]) -> Vec<CellState> {
    let (width, height) = (board.width() as i32, board.height() as i32);
    let index = |x: i32, y: i32| (y * width + x) as usize;
    let before = states(board);
    let mut after = before.clone();
    let mut spreading = vec![false; before.len()];
    for (x, y) in seeds {
        spreading[index(*x, *y)] = true;
    }
    let mut changed = true;
    while changed {
        changed = false;
        for y in 0..height {
            for x in 0..width {
                if before[index(x, y)] != CellState::Hidden || after[index(x, y)] == CellState::Revealed {
                    continue;
                }
                let mut touched = false;
                for ny in (y - 1)..=(y + 1) {
                    for nx in (x - 1)..=(x + 1) {
                        if (nx, ny) != (x, y) && nx >= 0 && ny >= 0 && nx < width && ny < height && spreading[index(nx, ny)] {
                            touched = true;
                        }
                    }
                }
                if touched {
                    after[index(x, y)] = CellState::Revealed;
                    if board.cell(x, y).unwrap().neighbor_bombs == 0 {
                        spreading[index(x, y)] = true;
                    }
                    changed = true;
                }
            }
        }
    }
    after
}

#[test]
fn new_game_lays_out_the_requested_board() {
    let board = new_game(9, 7, 12, 42).unwrap();
    assert_eq!(board.width(), 9);
    assert_eq!(board.height(), 7);
    assert_eq!(board.bomb_count(), 12);
    let mut bombs = 0;
    for y in 0..7 {
        for x in 0..9 {
            let cell = board.cell(x, y).unwrap();
            assert_eq!(cell.state, CellState::Hidden);
            assert_eq!(cell.position, (x, y));
            if cell.is_bomb {
                bombs += 1;
            }
        }
    }
    assert_eq!(bombs, 12);
}

#[test]
fn new_game_counts_neighbors_of_its_own_layout() {
    let board = new_game(8, 6, 11, 3).unwrap();
    for y in 0..6 {
        for x in 0..8 {
            let cell = board.cell(x, y).unwrap();
            let mut expected = 0u8;
            for ny in (y - 1)..=(y + 1) {
                for nx in (x - 1)..=(x + 1) {
                    if (nx, ny) != (x, y) {
                        if let Ok(other) = board.cell(nx, ny) {
                            if other.is_bomb {
                                expected += 1;
                            }
                        }
                    }
                }
            }
            if cell.is_bomb {
                assert_eq!(cell.neighbor_bombs, 0);
            } else {
                assert_eq!(cell.neighbor_bombs, expected);
            }
        }
    }
}

#[test]
fn new_game_accepts_the_extremes() {
    let empty = new_game(4, 4, 0, 1).unwrap();
    assert_eq!(empty.bomb_count(), 0);
    let full = new_game(4, 4, 16, 1).unwrap();
    assert_eq!(full.bomb_count(), 16);
    for y in 0..4 {
        for x in 0..4 {
            assert!(!empty.cell(x, y).unwrap().is_bomb);
            assert!(full.cell(x, y).unwrap().is_bomb);
        }
    }
    let single = new_game(1, 1, 1, 1).unwrap();
    assert!(single.cell(0, 0).unwrap().is_bomb);
}

#[test]
fn new_game_rejects_invalid_configurations() {
    assert_eq!(new_game(0, 5, 0, 1).unwrap_err(), GameError::InvalidConfiguration);
    assert_eq!(new_game(5, 0, 0, 1).unwrap_err(), GameError::InvalidConfiguration);
    assert_eq!(new_game(0, 0, 0, 1).unwrap_err(), GameError::InvalidConfiguration);
    assert_eq!(new_game(3, 3, 10, 1).unwrap_err(), GameError::InvalidConfiguration);
    assert_eq!(new_game(usize::MAX, 2, 0, 1).unwrap_err(), GameError::InvalidConfiguration);
    assert_eq!(new_game(2, usize::MAX, 0, 1).unwrap_err(), GameError::InvalidConfiguration);
    assert_eq!(
        new_game(i32::MAX as usize + 1, 1, 0, 1).unwrap_err(),
        GameError::InvalidConfiguration
    );
}

#[test]
fn new_game_repeats_for_the_same_seed() {
    let one = new_game(10, 10, 30, 77).unwrap();
    let two = new_game(10, 10, 30, 77).unwrap();
    for y in 0..10 {
        for x in 0..10 {
            assert_eq!(one.cell(x, y), two.cell(x, y));
        }
    }
}

#[test]
fn new_game_shuffles_the_bombs() {
    // Unshuffled, the 32 bombs would fill the first four rows.
    let board = new_game(8, 8, 32, 5).unwrap();
    let mut bombs_in_upper_half = 0;
    for y in 0..4 {
        for x in 0..8 {
            if board.cell(x, y).unwrap().is_bomb {
                bombs_in_upper_half += 1;
            }
        }
    }
    assert!(bombs_in_upper_half < 32);
}

#[test]
fn from_layout_rejects_bad_input() {
    assert_eq!(Board::from_layout(3, 3, &[false; 8]).unwrap_err(), GameError::InvalidConfiguration);
    assert_eq!(Board::from_layout(3, 3, &[false; 10]).unwrap_err(), GameError::InvalidConfiguration);
    assert_eq!(Board::from_layout(0, 3, &[]).unwrap_err(), GameError::InvalidConfiguration);
    assert_eq!(Board::from_layout(3, 0, &[]).unwrap_err(), GameError::InvalidConfiguration);
}

#[test]
fn from_layout_records_the_facts() {
    let board = board_with_bombs(3, 2, &[(0, 0), (2, 1)]);
    assert_eq!(board.bomb_count(), 2);
    assert!(board.cell(0, 0).unwrap().is_bomb);
    assert!(board.cell(2, 1).unwrap().is_bomb);
    assert!(!board.cell(1, 0).unwrap().is_bomb);
    assert_eq!(board.cell(1, 0).unwrap().neighbor_bombs, 2);
    assert_eq!(board.cell(1, 1).unwrap().neighbor_bombs, 2);
    assert_eq!(board.cell(2, 0).unwrap().neighbor_bombs, 1);
    assert_eq!(board.cell(0, 1).unwrap().neighbor_bombs, 1);
    assert_eq!(board.cell(0, 0).unwrap().neighbor_bombs, 0);
    assert_eq!(board.cell(2, 1).unwrap().position, (2, 1));
}

#[test]
fn cell_query_rejects_coordinates_off_the_board() {
    let board = board_with_bombs(3, 2, &[]);
    assert_eq!(board.cell(3, 0), Err(GameError::OutOfBounds));
    assert_eq!(board.cell(0, 2), Err(GameError::OutOfBounds));
    assert_eq!(board.cell(-1, 0), Err(GameError::OutOfBounds));
    assert_eq!(board.cell(0, -1), Err(GameError::OutOfBounds));
    assert!(board.cell(2, 1).is_ok());
}

#[test]
fn revealing_a_bomb_explodes_only_that_cell() {
    let mut board = board_with_bombs(4, 4, &[(1, 1), (3, 2)]);
    assert_eq!(board.try_reveal(1, 1), Ok(()));
    for y in 0..4 {
        for x in 0..4 {
            let expected = if (x, y) == (1, 1) { CellState::Exploded } else { CellState::Hidden };
            assert_eq!(state_at(&board, x, y), expected);
        }
    }
}

#[test]
fn revealing_a_numbered_cell_reveals_only_that_cell() {
    let mut board = board_with_bombs(4, 4, &[(1, 1)]);
    assert_eq!(board.cell(2, 2).unwrap().neighbor_bombs, 1);
    assert_eq!(board.try_reveal(2, 2), Ok(()));
    for y in 0..4 {
        for x in 0..4 {
            let expected = if (x, y) == (2, 2) { CellState::Revealed } else { CellState::Hidden };
            assert_eq!(state_at(&board, x, y), expected);
        }
    }
}

#[test]
fn cascade_stops_at_the_rim() {
    // A wall of bombs in column 2 splits the board; the rim is column 1.
    let mut board = board_with_bombs(5, 3, &[(2, 0), (2, 1), (2, 2)]);
    assert_eq!(board.try_reveal(0, 1), Ok(()));
    for y in 0..3 {
        assert_eq!(state_at(&board, 0, y), CellState::Revealed);
        assert_eq!(state_at(&board, 1, y), CellState::Revealed);
        assert_eq!(state_at(&board, 2, y), CellState::Hidden);
        assert_eq!(state_at(&board, 3, y), CellState::Hidden);
        assert_eq!(state_at(&board, 4, y), CellState::Hidden);
    }
}

#[test]
fn cascade_on_a_board_without_bombs_reveals_everything() {
    let mut board = board_with_bombs(6, 5, &[]);
    assert_eq!(board.try_reveal(3, 2), Ok(()));
    assert!(states(&board).iter().all(|s| *s == CellState::Revealed));
}

#[test]
fn cascade_passes_diagonally() {
    // (0,0) and (1,1) touch only at a corner of the two free regions.
    let mut board = board_with_bombs(4, 4, &[(3, 0), (0, 3)]);
    assert_eq!(board.try_reveal(0, 0), Ok(()));
    let expected = cascade_by_rounds(&board_with_bombs(4, 4, &[(3, 0), (0, 3)]), &[(0, 0)]);
    let mut expected = expected;
    expected[0] = CellState::Revealed;
    assert_eq!(states(&board), expected);
    assert_eq!(state_at(&board, 3, 3), CellState::Revealed);
    assert_eq!(state_at(&board, 3, 0), CellState::Hidden);
    assert_eq!(state_at(&board, 0, 3), CellState::Hidden);
}

#[test]
fn cascade_matches_round_by_round_recomputation() {
    for seed in 0..25u64 {
        let fresh = new_game(9, 8, 9, seed).unwrap();
        for y in 0..8 {
            for x in 0..9 {
                let cell = fresh.cell(x, y).unwrap();
                let mut board = new_game(9, 8, 9, seed).unwrap();
                assert_eq!(board.try_reveal(x, y), Ok(()));
                let mut expected = states(&fresh);
                let index = (y * 9 + x) as usize;
                if cell.is_bomb {
                    expected[index] = CellState::Exploded;
                } else if cell.neighbor_bombs != 0 {
                    expected[index] = CellState::Revealed;
                } else {
                    expected = cascade_by_rounds(&fresh, &[(x, y)]);
                    expected[index] = CellState::Revealed;
                }
                assert_eq!(states(&board), expected);
            }
        }
    }
}

#[test]
fn cascade_never_reveals_a_bomb() {
    for seed in 0..10u64 {
        let mut board = new_game(12, 12, 20, seed).unwrap();
        for y in 0..12 {
            for x in 0..12 {
                if !board.cell(x, y).unwrap().is_bomb {
                    assert_eq!(board.try_reveal(x, y), Ok(()));
                }
            }
        }
        for y in 0..12 {
            for x in 0..12 {
                let cell = board.cell(x, y).unwrap();
                let expected = if cell.is_bomb { CellState::Hidden } else { CellState::Revealed };
                assert_eq!(cell.state, expected);
            }
        }
    }
}

#[test]
fn a_flag_blocks_the_cascade() {
    // One row: the bomb at the far end, a flag in the middle.
    let mut board = board_with_bombs(5, 1, &[(4, 0)]);
    assert_eq!(board.toggle_flag(2, 0), Ok(()));
    assert_eq!(board.try_reveal(0, 0), Ok(()));
    assert_eq!(
        states(&board),
        vec![
            CellState::Revealed,
            CellState::Revealed,
            CellState::Flagged,
            CellState::Hidden,
            CellState::Hidden
        ]
    );
}

#[test]
fn auto_reveal_resumes_after_a_flag_is_taken_off() {
    let mut board = board_with_bombs(5, 1, &[(4, 0)]);
    assert_eq!(board.toggle_flag(2, 0), Ok(()));
    assert_eq!(board.try_reveal(0, 0), Ok(()));
    assert_eq!(board.toggle_flag(2, 0), Ok(()));
    assert_eq!(state_at(&board, 2, 0), CellState::Hidden);
    board.auto_reveal();
    assert_eq!(
        states(&board),
        vec![
            CellState::Revealed,
            CellState::Revealed,
            CellState::Revealed,
            CellState::Revealed,
            CellState::Hidden
        ]
    );
}

#[test]
fn auto_reveal_is_idempotent() {
    let mut board = board_with_bombs(6, 6, &[(5, 5), (0, 5), (3, 3)]);
    assert_eq!(board.toggle_flag(1, 1), Ok(()));
    assert_eq!(board.try_reveal(0, 0), Ok(()));
    assert_eq!(board.toggle_flag(1, 1), Ok(()));
    board.auto_reveal();
    let once = states(&board);
    board.auto_reveal();
    assert_eq!(states(&board), once);
}

#[test]
fn auto_reveal_on_a_fresh_board_changes_nothing() {
    let mut board = board_with_bombs(4, 4, &[(1, 2)]);
    board.auto_reveal();
    assert!(states(&board).iter().all(|s| *s == CellState::Hidden));
}

#[test]
fn auto_reveal_after_a_reveal_changes_nothing() {
    for seed in 0..10u64 {
        let mut board = new_game(10, 10, 12, seed).unwrap();
        assert_eq!(board.try_reveal(4, 4), Ok(()));
        let before = states(&board);
        board.auto_reveal();
        assert_eq!(states(&board), before);
    }
}

#[test]
fn auto_reveal_spreads_from_every_open_cell() {
    // Two free regions apart, each with a flag that held the cascade back.
    let mut board = board_with_bombs(7, 1, &[(3, 0)]);
    assert_eq!(board.toggle_flag(1, 0), Ok(()));
    assert_eq!(board.toggle_flag(5, 0), Ok(()));
    assert_eq!(board.try_reveal(0, 0), Ok(()));
    assert_eq!(board.try_reveal(6, 0), Ok(()));
    assert_eq!(board.toggle_flag(1, 0), Ok(()));
    assert_eq!(board.toggle_flag(5, 0), Ok(()));
    board.auto_reveal();
    assert_eq!(
        states(&board),
        vec![
            CellState::Revealed,
            CellState::Revealed,
            CellState::Revealed,
            CellState::Hidden,
            CellState::Revealed,
            CellState::Revealed,
            CellState::Revealed
        ]
    );
}

#[test]
fn flagging_toggles_between_hidden_and_flagged() {
    let mut board = board_with_bombs(3, 3, &[(1, 1)]);
    assert_eq!(board.toggle_flag(1, 1), Ok(()));
    assert_eq!(state_at(&board, 1, 1), CellState::Flagged);
    assert_eq!(board.toggle_flag(0, 2), Ok(()));
    assert_eq!(state_at(&board, 0, 2), CellState::Flagged);
    assert_eq!(board.toggle_flag(1, 1), Ok(()));
    assert_eq!(state_at(&board, 1, 1), CellState::Hidden);
    assert_eq!(state_at(&board, 0, 2), CellState::Flagged);
}

#[test]
fn revealing_a_flagged_cell_changes_nothing() {
    let mut board = board_with_bombs(3, 3, &[(1, 1)]);
    assert_eq!(board.toggle_flag(1, 1), Ok(()));
    assert_eq!(board.toggle_flag(0, 0), Ok(()));
    let before = states(&board);
    assert_eq!(board.try_reveal(1, 1), Ok(()));
    assert_eq!(board.try_reveal(0, 0), Ok(()));
    assert_eq!(states(&board), before);
}

#[test]
fn flagging_a_revealed_cell_changes_nothing() {
    let mut board = board_with_bombs(3, 3, &[(1, 1)]);
    assert_eq!(board.try_reveal(0, 0), Ok(()));
    let before = states(&board);
    assert_eq!(board.toggle_flag(0, 0), Ok(()));
    assert_eq!(states(&board), before);
    assert_eq!(board.try_reveal(0, 0), Ok(()));
    assert_eq!(states(&board), before);
}

#[test]
fn an_exploded_cell_is_final() {
    let mut board = board_with_bombs(3, 3, &[(1, 1)]);
    assert_eq!(board.try_reveal(1, 1), Ok(()));
    let before = states(&board);
    assert_eq!(board.try_reveal(1, 1), Ok(()));
    assert_eq!(board.toggle_flag(1, 1), Ok(()));
    board.auto_reveal();
    assert_eq!(states(&board), before);
    assert_eq!(state_at(&board, 1, 1), CellState::Exploded);
}

#[test]
fn operations_off_the_board_fail_and_change_nothing() {
    let mut board = board_with_bombs(3, 2, &[(1, 1)]);
    assert_eq!(board.toggle_flag(0, 0), Ok(()));
    let before = states(&board);
    for (x, y) in [(3, 0), (0, 2), (-1, 0), (0, -1), (3, 2), (i32::MAX, 0), (0, i32::MIN)] {
        assert_eq!(board.try_reveal(x, y), Err(GameError::OutOfBounds));
        assert_eq!(board.toggle_flag(x, y), Err(GameError::OutOfBounds));
        assert_eq!(states(&board), before);
    }
}

#[test]
fn facts_survive_every_operation() {
    let fresh = new_game(7, 7, 8, 11).unwrap();
    let mut board = new_game(7, 7, 8, 11).unwrap();
    assert_eq!(board.toggle_flag(2, 2), Ok(()));
    assert_eq!(board.try_reveal(0, 0), Ok(()));
    assert_eq!(board.try_reveal(6, 6), Ok(()));
    board.auto_reveal();
    assert_eq!(board.width(), 7);
    assert_eq!(board.height(), 7);
    assert_eq!(board.bomb_count(), 8);
    for y in 0..7 {
        for x in 0..7 {
            let (old, new) = (fresh.cell(x, y).unwrap(), board.cell(x, y).unwrap());
            assert_eq!(old.is_bomb, new.is_bomb);
            assert_eq!(old.neighbor_bombs, new.neighbor_bombs);
            assert_eq!(old.position, new.position);
        }
    }
}

#[test]
fn left_click_reveals_a_hidden_cell() {
    let mut board = board_with_bombs(3, 3, &[(2, 2)]);
    assert_eq!(board.click_system(2, 1, true, false), Ok(()));
    assert_eq!(state_at(&board, 2, 1), CellState::Revealed);
    assert_eq!(board.click_system(2, 2, true, false), Ok(()));
    assert_eq!(state_at(&board, 2, 2), CellState::Exploded);
    assert_eq!(board.click_system(0, 0, true, true), Ok(()));
    assert_eq!(state_at(&board, 0, 0), CellState::Revealed);
    assert_eq!(state_at(&board, 1, 1), CellState::Revealed);
}

#[test]
fn right_click_toggles_the_flag() {
    let mut board = board_with_bombs(3, 3, &[(2, 2)]);
    assert_eq!(board.click_system(1, 1, false, true), Ok(()));
    assert_eq!(state_at(&board, 1, 1), CellState::Flagged);
    // The left button does nothing to a flagged cell, so the right one acts.
    assert_eq!(board.click_system(1, 1, true, true), Ok(()));
    assert_eq!(state_at(&board, 1, 1), CellState::Hidden);
    assert_eq!(board.click_system(1, 1, true, false), Ok(()));
    assert_eq!(state_at(&board, 1, 1), CellState::Revealed);
    assert_eq!(board.click_system(1, 1, false, true), Ok(()));
    assert_eq!(state_at(&board, 1, 1), CellState::Revealed);
}

#[test]
fn a_click_without_a_button_changes_nothing() {
    let mut board = board_with_bombs(3, 3, &[(2, 2)]);
    assert_eq!(board.click_system(0, 0, false, false), Ok(()));
    assert!(states(&board).iter().all(|s| *s == CellState::Hidden));
    assert_eq!(board.click_system(3, 0, false, false), Err(GameError::OutOfBounds));
    assert_eq!(board.click_system(-1, 0, true, true), Err(GameError::OutOfBounds));
    assert!(states(&board).iter().all(|s| *s == CellState::Hidden));
}
