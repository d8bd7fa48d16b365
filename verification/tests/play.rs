use minesweeper::{Board, BoardError, Cell, CellState, Click};

fn counted_fixture() -> Board {
    let mut board = Board {
        mines: 6,
        rows: 5,
        columns: 5,
        flags_placed: 0,
        cells: vec![
            Cell::e(), Cell::e(), Cell::e(), Cell::e(), Cell::m(),
            Cell::m(), Cell::e(), Cell::e(), Cell::e(), Cell::e(),
            Cell::m(), Cell::e(), Cell::e(), Cell::e(), Cell::m(),
            Cell::e(), Cell::e(), Cell::e(), Cell::e(), Cell::m(),
            Cell::e(), Cell::e(), Cell::e(), Cell::e(), Cell::m(),
        ],
    };
    board.set_cells_num_bomb_neighbors();
    board
}

/// One letter per cell: `h` hidden, `r` revealed, `f` flagged.
fn states(board: &Board) -> Vec<String> {
    let mut rows = Vec::new();
    for row in 0..board.rows {
        let mut text = String::new();
        for column in 0..board.columns {
            text.push(match board.cells[row * board.columns + column].state {
                CellState::Hidden => 'h',
                CellState::Revealed => 'r',
                CellState::Flagged => 'f',
            });
        }
        rows.push(text);
    }
    rows
}

fn flagged(board: &Board) -> i32 {
    board.cells.iter().filter(|cell| cell.state == CellState::Flagged).count() as i32
}

fn rows_of_fixture(board: &Board) {
    assert_eq!("1101x", board.row_as_string(0));
    assert_eq!("x2022", board.row_as_string(1));
    assert_eq!("x202x", board.row_as_string(2));
    assert_eq!("1103x", board.row_as_string(3));
    assert_eq!("0002x", board.row_as_string(4));
}

#[test]
fn left_click_on_a_numbered_cell_reveals_it_alone() {
    let mut board = counted_fixture();
    assert_eq!(board.update_state(0, 0, Click::Left), Ok(()));
    assert_eq!(states(&board), vec!["rhhhh", "hhhhh", "hhhhh", "hhhhh", "hhhhh"]);
    assert_eq!(board.flags_placed, 0);
    rows_of_fixture(&board);
}

#[test]
fn left_click_on_an_empty_cell_reveals_its_region_and_the_border() {
    let mut board = counted_fixture();
    assert_eq!(board.update_state(4, 0, Click::Left), Ok(()));
    assert_eq!(states(&board), vec!["hrrrh", "hrrrh", "hrrrh", "rrrrh", "rrrrh"]);
    assert_eq!(board.flags_placed, 0);
    rows_of_fixture(&board);
    assert!(!board.game_lost());
}

#[test]
fn the_region_is_the_same_from_each_of_its_cells() {
    for &(row, column) in [(0, 2), (1, 2), (2, 2), (3, 2), (4, 2), (4, 1), (4, 0)].iter() {
        let mut board = counted_fixture();
        assert_eq!(board.update_state(row, column, Click::Left), Ok(()));
        assert_eq!(states(&board), vec!["hrrrh", "hrrrh", "hrrrh", "rrrrh", "rrrrh"]);
    }
}

#[test]
fn a_flag_stops_the_cascade_and_stays() {
    let mut board = counted_fixture();
    assert_eq!(board.update_state(2, 2, Click::Right), Ok(()));
    assert_eq!(board.update_state(4, 0, Click::Left), Ok(()));
    assert_eq!(states(&board), vec!["hhhhh", "hhhhh", "hrfrh", "rrrrh", "rrrrh"]);
    assert_eq!(board.flags_placed, 1);
    assert_eq!(flagged(&board), 1);
}

#[test]
fn a_flag_on_the_border_is_not_revealed() {
    let mut board = counted_fixture();
    assert_eq!(board.update_state(3, 0, Click::Right), Ok(()));
    assert_eq!(board.update_state(1, 3, Click::Right), Ok(()));
    assert_eq!(board.update_state(4, 0, Click::Left), Ok(()));
    assert_eq!(states(&board), vec!["hrrrh", "hrrfh", "hrrrh", "frrrh", "rrrrh"]);
    assert_eq!(board.flags_placed, 2);
}

#[test]
fn revealed_cells_stop_the_cascade() {
    let mut board = counted_fixture();
    board.cells[12].state = CellState::Revealed;
    assert_eq!(board.update_state(4, 0, Click::Left), Ok(()));
    // The cell in the middle was revealed beforehand, so nothing spreads from it.
    assert_eq!(states(&board), vec!["hhhhh", "hhhhh", "hrrrh", "rrrrh", "rrrrh"]);
}

#[test]
fn reveal_neighbors_reveals_the_hidden_cells_around() {
    let mut board = counted_fixture();
    board.update_state(1, 0, Click::Right).unwrap();
    board.reveal_neighbors(0);
    assert_eq!(states(&board), vec!["hrhhh", "frhhh", "hhhhh", "hhhhh", "hhhhh"]);
    assert_eq!(board.flags_placed, 1);
    rows_of_fixture(&board);
}

#[test]
fn reveal_neighbors_runs_on_through_a_mine_with_count_zero() {
    let mut board = counted_fixture();
    board.reveal_neighbors(0);
    // The mines at (1, 0) and (2, 0) are hidden and keep the count 0, so the
    // cascade passes through both.
    assert_eq!(states(&board), vec!["rrhhh", "rrhhh", "rrhhh", "rrhhh", "hhhhh"]);
    assert!(board.game_lost());
}

#[test]
fn reveal_neighbors_past_the_grid_reveals_what_touches_that_place() {
    let mut board = counted_fixture();
    board.reveal_neighbors(25);
    assert_eq!(states(&board), vec!["hrrrh", "hrrrh", "hrrrh", "rrrrh", "rrrrh"]);
    let mut board = counted_fixture();
    board.reveal_neighbors(400);
    assert_eq!(states(&board), vec!["hhhhh", "hhhhh", "hhhhh", "hhhhh", "hhhhh"]);
}

#[test]
fn revealing_a_mine_is_a_move_like_any_other() {
    let mut board = counted_fixture();
    assert!(!board.game_lost());
    assert_eq!(board.update_state(0, 4, Click::Left), Ok(()));
    assert_eq!(board.cells[4].state, CellState::Revealed);
    assert!(board.cells[4].has_mine);
    assert!(board.game_lost());
    assert!(!board.game_won());
    // A mine keeps the count 0, so the click spreads to the cells around it.
    assert_eq!(states(&board), vec!["hhhrr", "hhhrr", "hhhhh", "hhhhh", "hhhhh"]);
}

#[test]
fn right_click_sets_and_lifts_a_flag() {
    let mut board = counted_fixture();
    assert_eq!(board.update_state(1, 1, Click::Right), Ok(()));
    assert_eq!(board.cells[6].state, CellState::Flagged);
    assert_eq!(board.flags_placed, 1);
    assert_eq!(board.update_state(1, 1, Click::Right), Ok(()));
    assert_eq!(board.cells[6].state, CellState::Hidden);
    assert_eq!(board.flags_placed, 0);
    assert_eq!(states(&board), vec!["hhhhh", "hhhhh", "hhhhh", "hhhhh", "hhhhh"]);
}

#[test]
fn flag_counter_follows_the_flags() {
    let mut board = counted_fixture();
    let clicks = [
        (0, 0), (1, 1), (0, 0), (2, 2), (4, 4), (1, 1), (3, 3), (0, 0), (4, 4), (4, 4), (2, 0),
    ];
    for &(row, column) in clicks.iter() {
        assert_eq!(board.update_state(row, column, Click::Right), Ok(()));
        assert_eq!(board.flags_placed, flagged(&board));
    }
    assert_eq!(board.flags_placed, 5);
    assert_eq!(states(&board), vec!["fhhhh", "hhhhh", "fhfhh", "hhhfh", "hhhhf"]);
}

#[test]
fn flag_counter_follows_the_flags_between_reveals() {
    let mut board = counted_fixture();
    let clicks = [
        (1, 1, Click::Right), (0, 0, Click::Left), (1, 1, Click::Left), (4, 0, Click::Left),
        (1, 4, Click::Right), (1, 1, Click::Right), (1, 1, Click::Left), (0, 4, Click::Right),
    ];
    for &(row, column, click) in clicks.iter() {
        assert_eq!(board.update_state(row, column, click), Ok(()));
        assert_eq!(board.flags_placed, flagged(&board));
    }
    assert_eq!(board.flags_placed, 2);
}

#[test]
fn left_click_on_a_flagged_cell_changes_nothing() {
    let mut board = counted_fixture();
    board.update_state(2, 2, Click::Right).unwrap();
    board.update_state(0, 0, Click::Left).unwrap();
    let cells = board.cells.clone();
    let flags = board.flags_placed;
    assert_eq!(board.update_state(2, 2, Click::Left), Ok(()));
    assert_eq!(board.cells, cells);
    assert_eq!(board.flags_placed, flags);
    assert_eq!((board.mines, board.rows, board.columns), (6, 5, 5));
}

#[test]
fn right_click_on_a_revealed_cell_changes_nothing() {
    let mut board = counted_fixture();
    board.update_state(2, 2, Click::Right).unwrap();
    board.update_state(0, 0, Click::Left).unwrap();
    let cells = board.cells.clone();
    let flags = board.flags_placed;
    assert_eq!(board.update_state(0, 0, Click::Right), Ok(()));
    assert_eq!(board.cells, cells);
    assert_eq!(board.flags_placed, flags);
    assert_eq!((board.mines, board.rows, board.columns), (6, 5, 5));
}

#[test]
fn left_click_on_a_revealed_cell_waits_for_the_right_number_of_flags() {
    let mut board = counted_fixture();
    board.update_state(1, 1, Click::Left).unwrap();
    assert_eq!(states(&board), vec!["hhhhh", "hrhhh", "hhhhh", "hhhhh", "hhhhh"]);
    // The cell shows 2: with no flag or one flag around it nothing happens.
    board.update_state(1, 1, Click::Left).unwrap();
    assert_eq!(states(&board), vec!["hhhhh", "hrhhh", "hhhhh", "hhhhh", "hhhhh"]);
    board.update_state(1, 0, Click::Right).unwrap();
    board.update_state(1, 1, Click::Left).unwrap();
    assert_eq!(states(&board), vec!["hhhhh", "frhhh", "hhhhh", "hhhhh", "hhhhh"]);
    board.update_state(2, 0, Click::Right).unwrap();
    board.update_state(1, 1, Click::Left).unwrap();
    // Two flags: the cells around are revealed, and the cascade runs on from
    // the empty cells among them.
    assert_eq!(states(&board), vec!["rrrrh", "frrrh", "frrrh", "rrrrh", "rrrrh"]);
    assert_eq!(board.flags_placed, 2);
    assert!(!board.game_lost());
}

#[test]
fn misplaced_flags_let_a_revealed_cell_uncover_a_mine() {
    let mut board = counted_fixture();
    board.update_state(1, 1, Click::Left).unwrap();
    board.update_state(0, 0, Click::Right).unwrap();
    board.update_state(0, 1, Click::Right).unwrap();
    board.update_state(1, 1, Click::Left).unwrap();
    assert_eq!(board.cells[5].state, CellState::Revealed);
    assert_eq!(board.cells[10].state, CellState::Revealed);
    assert!(board.game_lost());
    assert_eq!(board.flags_placed, 2);
}

#[test]
fn left_click_on_a_revealed_empty_cell_spreads_again() {
    let mut board = counted_fixture();
    board.update_state(2, 2, Click::Right).unwrap();
    board.update_state(4, 0, Click::Left).unwrap();
    board.update_state(2, 2, Click::Right).unwrap();
    assert_eq!(states(&board), vec!["hhhhh", "hhhhh", "hrhrh", "rrrrh", "rrrrh"]);
    // Cell (3, 2) shows 0 and no flag touches it: its hidden neighbour is
    // revealed, and from there the rest of the region.
    board.update_state(3, 2, Click::Left).unwrap();
    assert_eq!(states(&board), vec!["hrrrh", "hrrrh", "hrrrh", "rrrrh", "rrrrh"]);
}

#[test]
fn clicks_off_the_grid_are_refused() {
    let mut board = counted_fixture();
    board.update_state(1, 1, Click::Right).unwrap();
    let cells = board.cells.clone();
    for &(row, column) in [(5, 0), (0, 5), (5, 5), (usize::MAX, 0), (0, usize::MAX), (1, 7)].iter() {
        assert_eq!(board.update_state(row, column, Click::Left), Err(BoardError::OutOfRange));
        assert_eq!(board.update_state(row, column, Click::Right), Err(BoardError::OutOfRange));
    }
    assert_eq!(board.cells, cells);
    assert_eq!(board.flags_placed, 1);
}

#[test]
fn the_game_is_won_when_all_safe_cells_are_revealed() {
    let mut board = counted_fixture();
    assert!(!board.game_won());
    board.update_state(4, 0, Click::Left).unwrap();
    assert!(!board.game_won());
    board.update_state(0, 0, Click::Left).unwrap();
    board.update_state(1, 4, Click::Left).unwrap();
    assert!(board.game_won());
    assert!(!board.game_lost());
    assert_eq!(states(&board), vec!["rrrrh", "hrrrr", "hrrrh", "rrrrh", "rrrrh"]);
}

#[test]
fn a_board_without_mines_opens_with_one_click() {
    let mut board = Board::new(0, 3, 4).unwrap();
    board.set_cells_num_bomb_neighbors();
    board.update_state(1, 2, Click::Left).unwrap();
    assert_eq!(states(&board), vec!["rrrr", "rrrr", "rrrr"]);
    assert!(board.game_won());
}

#[test]
fn a_large_empty_board_opens_without_deep_recursion() {
    let mut board = Board::new(0, 300, 300).unwrap();
    board.set_cells_num_bomb_neighbors();
    board.update_state(0, 0, Click::Left).unwrap();
    assert!(board.cells.iter().all(|cell| cell.state == CellState::Revealed));
    assert!(board.game_won());
}
