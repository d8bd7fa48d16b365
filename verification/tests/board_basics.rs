use minesweeper::{Board, BoardError, Cell, CellState};

fn fixture() -> Board {
    Board {
        mines: 6,
        rows: 5,
        columns: 5,
        flags_placed: 0,
        cells: vec![
            Cell::e(), Cell::e(), Cell::e(), Cell::e(), Cell::m(),
            Cell::m(), Cell::e(), Cell::e(), Cell::e(), Cell::e(),
            Cell::m(), Cell::e(), Cell::e(), Cell::e(), Cell::m(),
            Cell::e(), Cell::e(), Cell::e(), Cell::e(), Cell::m(),
            Cell::e(), Cell::e(), Cell::e(), Cell::e(), Cell::m(),
        ],
    }
}

#[test]
fn coords_to_index_conversions() {
    assert_eq!(2 + 2, 4);

    let board = Board::new(40, 16, 16).unwrap();
    for i in 0..board.get_total_number_of_cells() {
        let (x1, y1) = board.index_to_coords(i);
        let j = board.coords_to_index(x1, y1);
        let (x2, y2) = board.index_to_coords(j);
        assert_eq!(x1, x2);
        assert_eq!(y1, y2);
        assert_eq!(i, j);
    }
}

#[test]
fn test_mine_counts() {
    let mut board = fixture();

    board.set_cells_num_bomb_neighbors();
    for row in 0..board.rows {
        println!("{}", board.row_as_string(row));
    }
    assert_eq!("1101x", board.row_as_string(0));
    assert_eq!("x2022", board.row_as_string(1));
    assert_eq!("x202x", board.row_as_string(2));
    assert_eq!("1103x", board.row_as_string(3));
    assert_eq!("0002x", board.row_as_string(4));
}

#[test]
fn new_board_is_hidden_and_safe() {
    let board = Board::new(3, 2, 4).unwrap();
    assert_eq!(board.mines, 3);
    assert_eq!(board.rows, 2);
    assert_eq!(board.columns, 4);
    assert_eq!(board.flags_placed, 0);
    assert_eq!(board.cells.len(), 8);
    for cell in board.cells.iter() {
        assert_eq!(*cell, Cell { neighboring_mines: 0, state: CellState::Hidden, has_mine: false });
    }
}

#[test]
fn new_refuses_empty_grids() {
    assert_eq!(Board::new(0, 0, 5).err(), Some(BoardError::InvalidDimensions));
    assert_eq!(Board::new(0, 5, 0).err(), Some(BoardError::InvalidDimensions));
    assert_eq!(Board::new(-1, 0, 0).err(), Some(BoardError::InvalidDimensions));
}

#[test]
fn new_refuses_grids_beyond_the_cell_limit() {
    assert_eq!(Board::new(1, 0x8000_0000, 1).err(), Some(BoardError::InvalidDimensions));
    assert_eq!(Board::new(1, 1, 0x8000_0000).err(), Some(BoardError::InvalidDimensions));
    assert_eq!(Board::new(1, 0x1_0000, 0x8000).err(), Some(BoardError::InvalidDimensions));
    assert_eq!(Board::new(1, usize::MAX, usize::MAX).err(), Some(BoardError::InvalidDimensions));
}

#[test]
fn new_refuses_mine_counts_that_leave_no_cell_free() {
    assert_eq!(Board::new(-1, 3, 3).err(), Some(BoardError::InvalidMineCount));
    assert_eq!(Board::new(9, 3, 3).err(), Some(BoardError::InvalidMineCount));
    assert_eq!(Board::new(10, 3, 3).err(), Some(BoardError::InvalidMineCount));
    assert!(Board::new(8, 3, 3).is_ok());
    assert!(Board::new(0, 1, 1).is_ok());
    assert_eq!(Board::new(1, 1, 1).err(), Some(BoardError::InvalidMineCount));
}

#[test]
fn index_is_row_times_columns_plus_column() {
    let board = Board::new(1, 3, 7).unwrap();
    assert_eq!(board.coords_to_index(0, 0), 0);
    assert_eq!(board.coords_to_index(0, 6), 6);
    assert_eq!(board.coords_to_index(1, 0), 7);
    assert_eq!(board.coords_to_index(2, 3), 17);
    assert_eq!(board.index_to_coords(17), (2, 3));
    assert_eq!(board.index_to_coords(6), (0, 6));
    assert_eq!(board.index_to_coords(7), (1, 0));
    assert_eq!(board.get_total_number_of_cells(), 21);
}

#[test]
fn round_trip_on_a_grid_that_is_not_square() {
    let board = Board::new(2, 4, 9).unwrap();
    for i in 0..36 {
        let (row, column) = board.index_to_coords(i);
        assert!(row < 4 && column < 9);
        assert_eq!(board.coords_to_index(row, column), i);
    }
    for row in 0..4 {
        for column in 0..9 {
            assert_eq!(board.index_to_coords(board.coords_to_index(row, column)), (row, column));
        }
    }
}

#[test]
fn neighbours_come_column_by_column() {
    let board = fixture();
    assert_eq!(board.get_neighbor_indices(12), vec![6, 11, 16, 7, 17, 8, 13, 18]);
    assert_eq!(board.get_neighbor_indices(0), vec![5, 1, 6]);
    assert_eq!(board.get_neighbor_indices(4), vec![3, 8, 9]);
    assert_eq!(board.get_neighbor_indices(20), vec![15, 16, 21]);
    assert_eq!(board.get_neighbor_indices(24), vec![18, 23, 19]);
    assert_eq!(board.get_neighbor_indices(2), vec![1, 6, 7, 3, 8]);
    assert_eq!(board.get_neighbor_indices(10), vec![5, 15, 6, 11, 16]);
}

#[test]
fn neighbours_of_an_index_past_the_grid() {
    let board = fixture();
    // Index 27 would lie in a sixth row, below columns 1 to 3 of the last one.
    assert_eq!(board.get_neighbor_indices(27), vec![21, 22, 23]);
    assert_eq!(board.get_neighbor_indices(40), Vec::<usize>::new());
    assert_eq!(board.get_neighbor_indices(usize::MAX), Vec::<usize>::new());
}

#[test]
fn neighbours_on_a_single_cell_and_a_single_row() {
    let single = Board::new(0, 1, 1).unwrap();
    assert_eq!(single.get_neighbor_indices(0), Vec::<usize>::new());
    let line = Board::new(1, 1, 4).unwrap();
    assert_eq!(line.get_neighbor_indices(0), vec![1]);
    assert_eq!(line.get_neighbor_indices(2), vec![1, 3]);
    let column = Board::new(1, 4, 1).unwrap();
    assert_eq!(column.get_neighbor_indices(2), vec![1, 3]);
}

#[test]
fn mines_around_each_cell_of_the_fixture() {
    let board = fixture();
    let expected = [
        1, 1, 0, 1, 0,
        1, 2, 0, 2, 2,
        1, 2, 0, 2, 1,
        1, 1, 0, 3, 2,
        0, 0, 0, 2, 1,
    ];
    for i in 0..25 {
        assert_eq!(board.count_neighboring_bombs(i), expected[i], "cell {}", i);
    }
}

#[test]
fn counting_leaves_mined_cells_and_states_alone() {
    let mut board = fixture();
    board.cells[4].neighboring_mines = 7;
    board.cells[0].state = CellState::Revealed;
    board.set_cells_num_bomb_neighbors();
    assert_eq!(board.cells[4].neighboring_mines, 7);
    assert_eq!(board.cells[5].neighboring_mines, 0);
    assert_eq!(board.cells[0].state, CellState::Revealed);
    assert_eq!(board.cells[0].neighboring_mines, 1);
    assert_eq!(board.cells[18].neighboring_mines, 3);
    assert_eq!(board.flags_placed, 0);
    let mines: Vec<usize> = (0..25).filter(|&i| board.cells[i].has_mine).collect();
    assert_eq!(mines, vec![4, 5, 10, 14, 19, 24]);
}

#[test]
fn flags_around_a_cell() {
    let mut board = fixture();
    board.set_cells_num_bomb_neighbors();
    assert_eq!(board.count_neighboring_flags(12), 0);
    board.update_state(1, 1, minesweeper::Click::Right).unwrap();
    board.update_state(3, 3, minesweeper::Click::Right).unwrap();
    board.update_state(0, 0, minesweeper::Click::Right).unwrap();
    assert_eq!(board.count_neighboring_flags(12), 2);
    assert_eq!(board.count_neighboring_flags(0), 1);
    assert_eq!(board.count_neighboring_flags(1), 2);
    assert_eq!(board.count_neighboring_flags(24), 1);
}

#[test]
fn cells_print_as_digit_or_x() {
    assert_eq!(Cell::e().repr_val(), '0');
    assert_eq!(Cell::m().repr_val(), 'x');
    let digits = ['0', '1', '2', '3', '4', '5', '6', '7', '8', '9'];
    for n in 0..10 {
        let cell = Cell { neighboring_mines: n, state: CellState::Revealed, has_mine: false };
        assert_eq!(cell.repr_val(), digits[n as usize]);
        assert_eq!(Some(cell.repr_val()), std::char::from_digit(n as u32, 10));
    }
    let mined = Cell { neighboring_mines: 3, state: CellState::Flagged, has_mine: true };
    assert_eq!(mined.repr_val(), 'x');
}

#[test]
fn blank_and_mined_cells() {
    assert_eq!(Cell::e(), Cell { neighboring_mines: 0, state: CellState::Hidden, has_mine: false });
    assert_eq!(Cell::m(), Cell { neighboring_mines: 0, state: CellState::Hidden, has_mine: true });
}

#[test]
fn uncover_and_flag_act_on_hidden_cells_only() {
    let mut cell = Cell::m();
    cell.uncover();
    assert_eq!(cell, Cell { neighboring_mines: 0, state: CellState::Revealed, has_mine: true });
    cell.flag();
    assert_eq!(cell.state, CellState::Revealed);
    cell.uncover();
    assert_eq!(cell.state, CellState::Revealed);

    let mut other = Cell { neighboring_mines: 2, state: CellState::Hidden, has_mine: false };
    other.flag();
    assert_eq!(other, Cell { neighboring_mines: 2, state: CellState::Flagged, has_mine: false });
    other.uncover();
    assert_eq!(other.state, CellState::Flagged);
    other.flag();
    assert_eq!(other.state, CellState::Flagged);
}

#[test]
fn a_row_of_a_fresh_board_is_all_zeros() {
    let board = Board::new(2, 2, 3).unwrap();
    assert_eq!(board.row_as_string(0), "000");
    assert_eq!(board.row_as_string(1), "000");
}
