use tetris::grid::{is_in_play, is_tag_color, same_color, Grid};
use tetris::tetromino::Tetromino;

const EMPTY: (u8, u8, u8) = (20, 20, 20);
const RED: (u8, u8, u8) = (220, 60, 90);
const BLUE: (u8, u8, u8) = (60, 60, 230);

fn t_piece(pos: (i32, i32)) -> Tetromino {
    Tetromino::new(5, Some(pos))
}

fn fill_row_except(grid: &mut Grid, row: usize, gap: usize, color: (u8, u8, u8)) {
    for col in 0..10 {
        if col != gap {
            grid.cells[row][col] = color;
        }
    }
}

#[test]
fn new_grid_is_empty() {
    let grid = Grid::new();
    assert_eq!(grid.cells.len(), 20);
    for row in 0..20 {
        assert_eq!(grid.cells[row], vec![EMPTY; 10]);
        assert!(!grid.is_row_full(row));
    }
    assert!(grid.is_wf());
    assert!(grid.is_settled());
}

#[test]
fn piece_in_the_open_is_not_blocked() {
    let grid = Grid::new();
    let piece = t_piece((3, 5));
    assert!(!grid.is_blocked(&piece, 0, 0));
    assert!(!grid.is_blocked(&piece, 1, 0));
    assert!(!grid.is_blocked(&piece, -1, 0));
    assert!(!grid.is_blocked(&piece, 0, 1));
}

#[test]
fn walls_block() {
    let grid = Grid::new();
    // The T piece fills the columns 0 to 2 of its box in row 2.
    assert!(!grid.is_blocked(&t_piece((0, 5)), 0, 0));
    assert!(grid.is_blocked(&t_piece((0, 5)), -1, 0));
    assert!(grid.is_blocked(&t_piece((-1, 5)), 0, 0));
    assert!(!grid.is_blocked(&t_piece((7, 5)), 0, 0));
    assert!(grid.is_blocked(&t_piece((7, 5)), 1, 0));
    assert!(grid.is_blocked(&t_piece((8, 5)), 0, 0));
    assert!(grid.is_blocked(&t_piece((3, 5)), 5, 0));
    assert!(grid.is_blocked(&t_piece((3, 5)), -4, 0));
}

#[test]
fn floor_blocks() {
    let grid = Grid::new();
    // The lowest cells of the T piece are in row 2 of its box.
    assert!(!grid.is_blocked(&t_piece((3, 17)), 0, 0));
    assert!(grid.is_blocked(&t_piece((3, 17)), 0, 1));
    assert!(grid.is_blocked(&t_piece((3, 18)), 0, 0));
    assert!(grid.is_blocked(&t_piece((3, 5)), 0, 13));
    assert!(!grid.is_blocked(&t_piece((3, 5)), 0, 12));
}

#[test]
fn blocks_block() {
    let mut grid = Grid::new();
    grid.cells[10][4] = RED;
    // Cells of the T piece at (3, 8): (4, 9), (3, 10), (4, 10), (5, 10).
    assert!(grid.is_blocked(&t_piece((3, 8)), 0, 0));
    assert!(grid.is_blocked(&t_piece((3, 7)), 0, 1));
    assert!(!grid.is_blocked(&t_piece((3, 7)), 0, 0));
    assert!(grid.is_blocked(&t_piece((3, 9)), 0, 0));
    assert!(!grid.is_blocked(&t_piece((3, 10)), 0, 0));
    assert!(!grid.is_blocked(&t_piece((5, 8)), 0, 0));
    assert!(grid.is_blocked(&t_piece((5, 8)), -1, 0));
}

#[test]
fn topmost_visible_row_is_checked_for_blocks() {
    let mut grid = Grid::new();
    grid.cells[0][4] = RED;
    // At (3, -2) the T piece has the cells (4, -1), (3, 0), (4, 0), (5, 0).
    assert!(grid.is_blocked(&t_piece((3, -2)), 0, 0));
    assert!(!grid.is_blocked(&t_piece((3, -3)), 0, 0));
    assert!(grid.is_blocked(&t_piece((3, -1)), 0, 0));
}

#[test]
fn rows_above_the_playfield_hold_nothing_but_have_walls() {
    let mut grid = Grid::new();
    for col in 0..9 {
        grid.cells[0][col] = RED;
    }
    let high = t_piece((3, -4));
    assert!(!grid.is_blocked(&high, 0, 0));
    assert!(!grid.is_blocked(&high, 0, 1));
    assert!(grid.is_blocked(&high, 0, 2));
    assert!(grid.is_blocked(&high, -4, 0));
    assert!(grid.is_blocked(&high, 5, 0));
    assert!(!grid.is_blocked(&high, 4, 0));
}

#[test]
fn far_offsets_do_not_overflow() {
    let grid = Grid::new();
    let piece = t_piece((i32::MAX, i32::MAX));
    assert!(grid.is_blocked(&piece, i32::MAX, i32::MAX));
    let piece = t_piece((i32::MIN, i32::MIN));
    assert!(grid.is_blocked(&piece, i32::MIN, i32::MIN));
    let piece = t_piece((3, i32::MIN));
    assert!(!grid.is_blocked(&piece, 0, i32::MIN));
}

#[test]
fn place_writes_the_cells_of_the_piece() {
    let mut grid = Grid::new();
    grid.cells[19][0] = BLUE;
    let piece = t_piece((3, 17));
    grid.place(&piece);
    let mut expected = Grid::new();
    expected.cells[19][0] = BLUE;
    expected.cells[18][4] = piece.color;
    expected.cells[19][3] = piece.color;
    expected.cells[19][4] = piece.color;
    expected.cells[19][5] = piece.color;
    assert_eq!(grid, expected);
    assert!(grid.is_wf());
}

#[test]
fn row_is_full_when_no_cell_is_empty() {
    let mut grid = Grid::new();
    fill_row_except(&mut grid, 19, 4, RED);
    assert!(!grid.is_row_full(19));
    grid.cells[19][4] = BLUE;
    assert!(grid.is_row_full(19));
    assert!(!grid.is_row_full(18));
    assert!(!grid.is_settled());
}

#[test]
fn clear_lines_without_full_rows_changes_nothing() {
    let mut grid = Grid::new();
    fill_row_except(&mut grid, 19, 4, RED);
    fill_row_except(&mut grid, 18, 0, BLUE);
    let before = grid.clone();
    assert_eq!(grid.clear_lines(), 0);
    assert_eq!(grid, before);
}

#[test]
fn clear_lines_removes_one_row_and_shifts_the_rows_above() {
    let mut grid = Grid::new();
    fill_row_except(&mut grid, 19, 10, RED);
    fill_row_except(&mut grid, 18, 0, BLUE);
    grid.cells[17][5] = RED;
    grid.cells[3][9] = BLUE;
    assert_eq!(grid.clear_lines(), 1);
    let mut expected = Grid::new();
    fill_row_except(&mut expected, 19, 0, BLUE);
    expected.cells[18][5] = RED;
    expected.cells[4][9] = BLUE;
    assert_eq!(grid, expected);
    assert_eq!(grid.cells[0], vec![EMPTY; 10]);
    assert!(grid.is_settled());
}

#[test]
fn clear_lines_keeps_the_order_of_the_rows_that_stay() {
    let mut grid = Grid::new();
    fill_row_except(&mut grid, 19, 10, RED);
    fill_row_except(&mut grid, 18, 2, BLUE);
    fill_row_except(&mut grid, 17, 10, RED);
    fill_row_except(&mut grid, 16, 7, RED);
    fill_row_except(&mut grid, 15, 10, BLUE);
    grid.cells[14][1] = BLUE;
    assert_eq!(grid.clear_lines(), 3);
    let mut expected = Grid::new();
    fill_row_except(&mut expected, 19, 2, BLUE);
    fill_row_except(&mut expected, 18, 7, RED);
    expected.cells[17][1] = BLUE;
    assert_eq!(grid, expected);
}

#[test]
fn clear_lines_of_a_row_in_the_middle_leaves_the_rows_below() {
    let mut grid = Grid::new();
    fill_row_except(&mut grid, 19, 3, RED);
    fill_row_except(&mut grid, 10, 10, BLUE);
    grid.cells[9][6] = RED;
    assert_eq!(grid.clear_lines(), 1);
    let mut expected = Grid::new();
    fill_row_except(&mut expected, 19, 3, RED);
    expected.cells[10][6] = RED;
    assert_eq!(grid, expected);
}

#[test]
fn landing_on_the_floor() {
    let grid = Grid::new();
    assert_eq!(grid.landing(&t_piece((3, -2))), t_piece((3, 17)));
    assert_eq!(grid.landing(&t_piece((3, 17))), t_piece((3, 17)));
    let mut upright = Tetromino::new(0, Some((0, -2)));
    upright.rotate_shape(true);
    let landed = grid.landing(&upright);
    assert_eq!(landed.pos, (0, 16));
    assert_eq!(landed.rotation, 1);
}

#[test]
fn landing_on_blocks() {
    let mut grid = Grid::new();
    grid.cells[12][5] = RED;
    // The T piece at column 3 has a cell in column 5, in row 2 of its box.
    assert_eq!(grid.landing(&t_piece((3, -2))).pos, (3, 9));
    // At column 5 only its left arm, in column 5, meets the block.
    assert_eq!(grid.landing(&t_piece((5, -2))).pos, (5, 9));
    // At column 6 nothing of it is in column 5.
    assert_eq!(grid.landing(&t_piece((6, -2))).pos, (6, 17));
}

#[test]
fn landing_does_not_jump_over_blocks() {
    let mut grid = Grid::new();
    grid.cells[5][4] = RED;
    assert_eq!(grid.landing(&t_piece((3, 0))).pos, (3, 2));
    // Below the block the piece falls to the floor.
    assert_eq!(grid.landing(&t_piece((3, 6))).pos, (3, 17));
}

#[test]
fn tags_are_the_empty_colour_and_the_piece_colours() {
    assert!(is_tag_color((20, 20, 20)));
    assert!(is_tag_color((0, 190, 225)));
    assert!(is_tag_color((220, 60, 90)));
    assert!(!is_tag_color((0, 0, 0)));
    assert!(!is_tag_color((220, 60, 91)));
    assert!(same_color((1, 2, 3), (1, 2, 3)));
    assert!(!same_color((1, 2, 3), (1, 2, 4)));
    assert!(!same_color((1, 2, 3), (0, 2, 3)));
    assert!(!same_color((1, 2, 3), (1, 0, 3)));
}

#[test]
fn grid_of_another_size_or_colour_is_not_well_formed() {
    let mut grid = Grid::new();
    grid.cells[4][4] = (1, 2, 3);
    assert!(!grid.is_wf());
    let mut grid = Grid::new();
    grid.cells.pop();
    assert!(!grid.is_wf());
    let mut grid = Grid::new();
    grid.cells[7].push(EMPTY);
    assert!(!grid.is_wf());
}

#[test]
fn in_play_means_inside_the_walls_and_above_the_floor() {
    assert!(is_in_play(&t_piece((3, -2))));
    assert!(is_in_play(&t_piece((0, 17))));
    assert!(is_in_play(&t_piece((7, -5))));
    assert!(!is_in_play(&t_piece((-1, 5))));
    assert!(!is_in_play(&t_piece((8, 5))));
    assert!(!is_in_play(&t_piece((3, 18))));
    assert!(!is_in_play(&t_piece((3, -6))));
}

#[test]
fn set_writes_one_cell_and_get_reads_it() {
    let mut grid = Grid::new();
    grid.set(7, 2, RED);
    let mut expected = Grid::new();
    expected.cells[7][2] = RED;
    assert_eq!(grid, expected);
    assert_eq!(grid.get(7, 2), RED);
    assert_eq!(grid.get(7, 3), EMPTY);
    assert_eq!(grid.get(2, 7), EMPTY);
    grid.set(7, 2, EMPTY);
    assert_eq!(grid, Grid::new());
}
