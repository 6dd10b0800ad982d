use tetris::bag::{Bag, Supply};
use tetris::game::Game;
use tetris::grid::Grid;
use tetris::tetromino::Tetromino;
use tetris::timing::{Input, Timing};

const RED: (u8, u8, u8) = (220, 60, 90);
const CYAN: (u8, u8, u8) = (0, 190, 225);

fn supply(order: [usize; 7]) -> Supply {
    Supply::Given(Bag::from_order(order.to_vec()).unwrap())
}

/// A run that starts with the Z piece in play, the T piece as preview and the
/// identities 0 to 4 left in the bag.
fn new_game() -> Game {
    Game::start(&supply([0, 1, 2, 3, 4, 5, 6]))
}

/// A refill that deals the I piece first.
fn refill() -> Supply {
    supply([6, 5, 4, 3, 2, 1, 0])
}

fn fill_row_except(grid: &mut Grid, row: usize, gap: usize) {
    for col in 0..10 {
        if col != gap {
            grid.cells[row][col] = RED;
        }
    }
}

fn upright_i(pos: (i32, i32)) -> Tetromino {
    Tetromino { id: 0, rotation: 1, pos, color: CYAN }
}

#[test]
fn start_state() {
    let game = new_game();
    let expected = Game {
        bag: Bag { items: vec![0, 1, 2, 3, 4] },
        board: Grid::new(),
        piece: Tetromino::new(6, None),
        preview: Tetromino::new(5, None),
        phantom: Tetromino::new(6, Some((3, 17))),
        hold: Tetromino::new(0, None),
        empty_hold: true,
        hold_used: false,
        score: 0,
        lines: 0,
        level: 0,
        timing: Timing {
            x_move_delay: 120,
            y_move_delay: 50,
            gravity_delay: 1000,
            lock_delay: 200,
            last_x_move: 0,
            last_y_move: 0,
            last_gravity: 0,
            lock_start: None,
        },
        paused: false,
    };
    assert_eq!(game, expected);
    assert_eq!(game.piece.pos, (3, -2));
    assert_eq!(game.timing, Timing::new());
    assert!(game.is_valid(0));
}

#[test]
fn new_takes_its_first_bag_from_the_shuffle() {
    for seed in [0u64, 5, 99, 1_700_000_000_123] {
        let game = Game::new(seed);
        let order = Bag::shuffled(seed).items;
        assert_eq!(game.piece, Tetromino::new(order[6], None));
        assert_eq!(game.preview, Tetromino::new(order[5], None));
        assert_eq!(game.bag.items, order[..5].to_vec());
        assert_eq!(game, Game::start(&Supply::Seeded(seed)));
        assert!(game.is_valid(0));
    }
}

#[test]
fn update_bag_brings_the_preview_into_play() {
    let mut game = new_game();
    game.piece.pos = (7, 9);
    game.hold_used = true;
    game.timing.lock_start = Some(3);
    game.update_bag(&refill());
    assert_eq!(game.piece, Tetromino::new(5, None));
    assert_eq!(game.preview, Tetromino::new(4, None));
    assert_eq!(game.bag.items, vec![0, 1, 2, 3]);
    assert!(!game.hold_used);
    assert_eq!(game.timing.lock_start, None);
}

#[test]
fn update_bag_refills_an_empty_bag() {
    let mut game = new_game();
    game.bag = Bag::new();
    game.update_bag(&refill());
    assert_eq!(game.piece, Tetromino::new(5, None));
    assert_eq!(game.preview, Tetromino::new(0, None));
    assert_eq!(game.bag.items, vec![6, 5, 4, 3, 2, 1]);
}

#[test]
fn pieces_come_in_fair_rounds_of_seven() {
    let mut game = Game::new(77);
    let mut dealt = vec![game.piece.id, game.preview.id];
    for spawn in 0..19u64 {
        game.update_bag(&Supply::Seeded(spawn));
        dealt.push(game.preview.id);
    }
    for round in dealt.chunks(7) {
        let mut seen = [0usize; 7];
        for &id in round {
            seen[id] += 1;
        }
        assert_eq!(seen, [1usize; 7], "{:?}", dealt);
    }
}

#[test]
fn rotation_in_the_open_turns_in_place() {
    let mut game = new_game();
    game.piece = Tetromino::new(5, Some((4, 10)));
    let before = game.clone();
    game.rotate_tetromino(true, 77);
    assert_eq!(game.piece, Tetromino { id: 5, rotation: 1, pos: (4, 10), color: (110, 40, 230) });
    assert_eq!(game.timing.lock_start, Some(77));
    game.rotate_tetromino(false, 78);
    game.rotate_tetromino(false, 79);
    assert_eq!(game.piece.rotation, 3);
    assert_eq!(game.piece.pos, (4, 10));
    assert_eq!(game.timing.lock_start, Some(79));
    assert_eq!(game.board, before.board);
    assert_eq!(game.score, 0);
}

#[test]
fn rotation_takes_the_first_free_kick() {
    let mut game = new_game();
    game.piece = Tetromino::new(5, Some((4, 10)));
    // Turned clockwise, the T piece fills (5, 11), (5, 12), (6, 12), (5, 13)
    // in place and (4, 11), (4, 12), (5, 12), (4, 13) one column to the left.
    game.board.cells[12][5] = RED;
    assert!(game.board.is_blocked(&Tetromino { rotation: 1, ..game.piece }, 0, 0));
    assert!(game.board.is_blocked(&Tetromino { rotation: 1, ..game.piece }, -1, 0));
    assert!(!game.board.is_blocked(&Tetromino { rotation: 1, ..game.piece }, -1, 1));
    game.rotate_tetromino(true, 500);
    assert_eq!(game.piece.rotation, 1);
    assert_eq!(game.piece.pos, (4 - 1, 10 + 1));
    assert_eq!(game.timing.lock_start, Some(500));
}

#[test]
fn rotation_that_is_blocked_everywhere_is_discarded() {
    let mut game = new_game();
    game.piece = Tetromino::new(5, Some((4, 10)));
    for row in 5..20 {
        fill_row_except(&mut game.board, row, 0);
    }
    game.timing.lock_start = Some(5);
    let before = game.clone();
    game.rotate_tetromino(true, 500);
    assert_eq!(game, before);
    game.rotate_tetromino(false, 600);
    assert_eq!(game, before);
}

#[test]
fn rotation_of_the_o_piece_changes_its_state_only() {
    let mut game = new_game();
    game.piece = Tetromino::new(3, Some((4, 17)));
    game.rotate_tetromino(true, 9);
    assert_eq!(game.piece, Tetromino { id: 3, rotation: 1, pos: (4, 17), color: (240, 215, 0) });
    assert_eq!(game.timing.lock_start, Some(9));
}

#[test]
fn i_piece_kicks_off_the_left_wall() {
    let mut game = new_game();
    // Upright in column 0; lying down in place it would reach column -2.
    game.piece = upright_i((-2, 5));
    game.rotate_tetromino(true, 1);
    assert_eq!(game.piece.rotation, 2);
    assert_eq!(game.piece.pos, (0, 5));
}

#[test]
fn t_piece_kicks_up_from_the_floor() {
    let mut game = new_game();
    game.piece = Tetromino::new(5, Some((3, 17)));
    game.rotate_tetromino(true, 1150);
    assert_eq!(game.piece.rotation, 1);
    assert_eq!(game.piece.pos, (3, 15));
}

#[test]
fn lock_completes_a_row_and_the_rows_above_move_down() {
    let mut game = new_game();
    fill_row_except(&mut game.board, 19, 4);
    game.board.cells[18][0] = RED;
    game.board.cells[5][9] = RED;
    game.piece = upright_i((2, 0));
    game.drop_tetromino(&refill());
    let mut expected = Grid::new();
    expected.cells[19][0] = RED;
    expected.cells[19][4] = CYAN;
    expected.cells[18][4] = CYAN;
    expected.cells[17][4] = CYAN;
    expected.cells[6][9] = RED;
    assert_eq!(game.board, expected);
    assert_eq!(game.board.cells[0], vec![(20, 20, 20); 10]);
    assert_eq!(game.lines, 1);
    assert_eq!(game.score, 100);
    assert_eq!(game.level, 0);
    assert_eq!(game.piece, Tetromino::new(5, None));
    assert_eq!(game.preview, Tetromino::new(4, None));
}

fn score_gain(level: u32, rows: usize) -> u32 {
    let mut game = new_game();
    game.lines = level * 10;
    game.level = level;
    game.score = 1000;
    for row in (20 - rows)..20 {
        fill_row_except(&mut game.board, row, 4);
    }
    game.piece = upright_i((2, 3));
    assert!(game.is_valid(0));
    game.drop_tetromino(&refill());
    assert_eq!(game.lines, level * 10 + rows as u32);
    assert_eq!(game.level, game.lines / 10);
    game.score - 1000
}

#[test]
fn scoring_at_level_zero() {
    assert_eq!(score_gain(0, 0), 2);
    assert_eq!(score_gain(0, 1), 100);
    assert_eq!(score_gain(0, 2), 300);
    assert_eq!(score_gain(0, 3), 500);
    assert_eq!(score_gain(0, 4), 800);
}

#[test]
fn scoring_at_level_two() {
    assert_eq!(score_gain(2, 0), 6);
    assert_eq!(score_gain(2, 1), 300);
    assert_eq!(score_gain(2, 2), 900);
    assert_eq!(score_gain(2, 3), 1500);
    assert_eq!(score_gain(2, 4), 2400);
}

#[test]
fn score_is_multiplied_by_the_level_before_the_lock() {
    let mut game = new_game();
    game.lines = 8;
    for row in 17..20 {
        fill_row_except(&mut game.board, row, 4);
    }
    game.piece = upright_i((2, 3));
    game.drop_tetromino(&refill());
    assert_eq!(game.lines, 11);
    assert_eq!(game.level, 1);
    assert_eq!(game.score, 500);
    assert_eq!(game.timing.gravity_delay, 700);
}

#[test]
fn gravity_delay_follows_the_level() {
    for (level, delay) in [(1u32, 700u64), (2, 533), (3, 450), (4, 400), (9, 300), (99, 210)] {
        let mut game = new_game();
        game.lines = level * 10 - 1;
        game.level = level - 1;
        fill_row_except(&mut game.board, 19, 4);
        game.piece = upright_i((2, 3));
        game.drop_tetromino(&refill());
        assert_eq!(game.level, level);
        assert_eq!(game.timing.gravity_delay, delay);
    }
}

#[test]
fn gravity_delay_stays_while_the_level_stays() {
    let mut game = new_game();
    fill_row_except(&mut game.board, 19, 4);
    game.piece = upright_i((2, 3));
    game.drop_tetromino(&refill());
    assert_eq!(game.lines, 1);
    assert_eq!(game.timing.gravity_delay, 1000);
    let mut timing = Timing::new();
    timing.set_level(0);
    assert_eq!(timing.gravity_delay, 1200);
    timing.set_level(u32::MAX);
    assert_eq!(timing.gravity_delay, 200);
}

#[test]
fn lock_without_a_full_row_scores_the_placement_bonus() {
    let mut game = new_game();
    game.piece = Tetromino::new(5, Some((3, 17)));
    game.place_tetromino(&refill());
    let mut expected = Grid::new();
    for (col, row) in [(4, 18), (3, 19), (4, 19), (5, 19)] {
        expected.cells[row][col] = (110, 40, 230);
    }
    assert_eq!(game.board, expected);
    assert_eq!(game.score, 2);
    assert_eq!(game.lines, 0);
}

#[test]
fn clear_lines_counts_and_scores() {
    let mut game = new_game();
    game.lines = 29;
    game.level = 2;
    game.score = 10;
    fill_row_except(&mut game.board, 19, 10);
    fill_row_except(&mut game.board, 18, 10);
    game.board.cells[17][3] = RED;
    game.clear_lines();
    assert_eq!(game.lines, 31);
    assert_eq!(game.score, 10 + 300 * 3);
    assert_eq!(game.level, 3);
    assert_eq!(game.timing.gravity_delay, 450);
    let mut expected = Grid::new();
    expected.cells[19][3] = RED;
    assert_eq!(game.board, expected);
}

#[test]
fn hold_sets_the_piece_aside_once() {
    let mut game = new_game();
    game.piece.pos = (5, 7);
    game.timing.lock_start = Some(1);
    game.hold_tetromino(&refill());
    assert!(!game.empty_hold);
    assert!(game.hold_used);
    assert_eq!(game.hold, Tetromino::new(6, Some((5, 7))));
    assert_eq!(game.piece, Tetromino::new(5, None));
    assert_eq!(game.preview, Tetromino::new(4, None));
    assert_eq!(game.bag.items, vec![0, 1, 2, 3]);
    assert_eq!(game.timing.lock_start, None);
    assert_eq!(game.board, Grid::new());
    assert_eq!(game.score, 0);

    let after_first = game.clone();
    game.hold_tetromino(&refill());
    assert_eq!(game, after_first);
    game.piece.pos = (4, 3);
    let moved = game.clone();
    game.hold_tetromino(&refill());
    assert_eq!(game, moved);
}

#[test]
fn hold_is_allowed_again_after_a_lock() {
    let mut game = new_game();
    game.hold_tetromino(&refill());
    assert!(game.hold_used);
    game.drop_tetromino(&refill());
    assert!(!game.hold_used);
    // In play: identity 4; held: identity 6; preview: identity 3.
    assert_eq!(game.piece, Tetromino::new(4, None));
    game.piece.pos = (6, 2);
    game.rotate_tetromino(true, 10);
    let in_play = game.piece;
    game.hold_tetromino(&refill());
    assert_eq!(game.piece, Tetromino::new(6, None));
    assert_eq!(game.hold, in_play);
    assert!(game.hold_used);
    assert!(!game.empty_hold);
    assert_eq!(game.preview, Tetromino::new(3, None));
    assert_eq!(game.bag.items, vec![0, 1, 2]);
    assert_eq!(game.timing.lock_start, None);
    let swapped = game.clone();
    game.hold_tetromino(&refill());
    assert_eq!(game, swapped);
}

#[test]
fn held_piece_comes_back_as_it_was_turned() {
    let mut game = new_game();
    game.piece = Tetromino::new(5, Some((4, 10)));
    game.rotate_tetromino(true, 0);
    game.hold_tetromino(&refill());
    game.hold_used = false;
    game.hold_tetromino(&refill());
    assert_eq!(game.piece, Tetromino { id: 5, rotation: 1, pos: (3, -2), color: (110, 40, 230) });
}

#[test]
fn second_hold_in_a_tick_sequence_has_no_effect() {
    let mut game = new_game();
    let hold = Input { hold_pressed: true, ..Input::none() };
    game.step(10, &hold, &refill());
    let after_first = game.clone();
    assert_eq!(game.hold.id, 6);
    assert_eq!(game.piece.id, 5);
    game.step(20, &hold, &refill());
    assert_eq!(game, after_first);
    game.step(30, &Input { hard_drop_pressed: true, ..Input::none() }, &refill());
    assert!(!game.hold_used);
    game.step(40, &hold, &refill());
    assert_eq!(game.piece.id, 6);
    assert_eq!(game.hold.id, 4);
    assert!(game.hold_used);
}

#[test]
fn lock_above_the_visible_rows_starts_the_run_anew() {
    let mut game = new_game();
    game.score = 500;
    game.lines = 12;
    game.level = 1;
    game.timing.gravity_delay = 700;
    game.timing.last_gravity = 4000;
    game.timing.lock_start = Some(4100);
    game.hold = Tetromino::new(2, None);
    game.empty_hold = false;
    game.hold_used = true;
    for row in 1..20 {
        fill_row_except(&mut game.board, row, 9);
    }
    // At the spawn anchor the Z piece has cells in the rows -1 and 0.
    game.place_tetromino(&refill());
    assert_eq!(game, Game::start(&refill()));
    assert_eq!(game.board, Grid::new());
    assert_eq!((game.score, game.lines, game.level), (0, 0, 0));
    assert_eq!(game.bag.items, vec![6, 5, 4, 3, 2]);
    assert_eq!(game.piece, Tetromino::new(0, None));
    assert_eq!(game.preview, Tetromino::new(1, None));
    assert!(game.empty_hold);
    assert!(!game.hold_used);
    assert_eq!(game.timing, Timing::new());
}

#[test]
fn lock_in_the_topmost_visible_row_ends_the_run_too() {
    let mut game = new_game();
    game.score = 40;
    game.piece = Tetromino::new(5, Some((3, -1)));
    assert!(game.tops_out());
    game.place_tetromino(&refill());
    assert_eq!(game, Game::start(&refill()));
}

#[test]
fn lock_below_the_topmost_visible_row_goes_on() {
    let mut game = new_game();
    game.score = 40;
    game.piece = Tetromino::new(5, Some((3, 0)));
    assert!(!game.tops_out());
    game.place_tetromino(&refill());
    assert_eq!(game.score, 42);
    assert_eq!(game.board.cells[1][4], (110, 40, 230));
    assert_eq!(game.board.cells[2][3], (110, 40, 230));
}

#[test]
fn check_game_over_leaves_a_run_that_goes_on() {
    let mut game = new_game();
    game.piece.pos = (3, 5);
    let before = game.clone();
    assert!(!game.check_game_over(&refill()));
    assert_eq!(game, before);
    game.piece.pos = (3, -2);
    assert!(game.check_game_over(&refill()));
    assert_eq!(game, Game::start(&refill()));
}

#[test]
fn hard_drop_on_a_full_stack_ends_the_run() {
    let mut game = new_game();
    game.score = 9;
    for row in 1..20 {
        fill_row_except(&mut game.board, row, 9);
    }
    game.step(10, &Input { hard_drop_pressed: true, ..Input::none() }, &refill());
    let mut expected = Game::start(&refill());
    // The I piece of the new run lands on the floor.
    expected.phantom = Tetromino::new(0, Some((3, 18)));
    assert_eq!(game, expected);
}

#[test]
fn hard_drop_locks_at_once() {
    let mut game = new_game();
    game.step(10, &Input { hard_drop_pressed: true, ..Input::none() }, &refill());
    let mut board = Grid::new();
    for (col, row) in [(3, 18), (4, 18), (4, 19), (5, 19)] {
        board.cells[row][col] = RED;
    }
    assert_eq!(game.board, board);
    assert_eq!(game.score, 2);
    assert_eq!(game.piece, Tetromino::new(5, None));
    assert_eq!(game.preview, Tetromino::new(4, None));
    assert_eq!(game.phantom, Tetromino::new(5, Some((3, 15))));
    assert_eq!(game.bag.items, vec![0, 1, 2, 3]);
    assert_eq!(game.timing, Timing::new());
}

#[test]
fn horizontal_moves_repeat_after_their_delay() {
    let mut game = new_game();
    let left = Input { left_held: true, ..Input::none() };
    game.step(100, &left, &refill());
    assert_eq!(game.piece.pos, (3, -2));
    assert_eq!(game.timing.last_x_move, 0);
    game.step(120, &left, &refill());
    assert_eq!(game.piece.pos, (2, -2));
    assert_eq!(game.timing.last_x_move, 120);
    game.step(239, &left, &refill());
    assert_eq!(game.piece.pos, (2, -2));
    game.step(240, &left, &refill());
    assert_eq!(game.piece.pos, (1, -2));
    assert_eq!(game.phantom.pos, (1, 17));
    game.step(500, &Input::none(), &refill());
    assert_eq!(game.piece.pos, (1, -2));
    assert_eq!(game.timing.last_x_move, 240);
}

#[test]
fn right_wins_over_left() {
    let mut game = new_game();
    let both = Input { left_held: true, right_held: true, ..Input::none() };
    game.step(120, &both, &refill());
    assert_eq!(game.piece.pos, (4, -2));
}

#[test]
fn walls_stop_horizontal_moves_but_restart_the_delay() {
    let mut game = new_game();
    game.piece.pos = (0, 4);
    game.step(120, &Input { left_held: true, ..Input::none() }, &refill());
    assert_eq!(game.piece.pos, (0, 4));
    assert_eq!(game.timing.last_x_move, 120);
}

#[test]
fn gravity_pulls_once_per_delay() {
    let mut game = new_game();
    game.step(999, &Input::none(), &refill());
    assert_eq!(game.piece.pos, (3, -2));
    game.step(1000, &Input::none(), &refill());
    assert_eq!(game.piece.pos, (3, -1));
    assert_eq!(game.timing.last_gravity, 1000);
    game.step(1999, &Input::none(), &refill());
    assert_eq!(game.piece.pos, (3, -1));
    game.step(2000, &Input::none(), &refill());
    assert_eq!(game.piece.pos, (3, 0));
}

#[test]
fn soft_drop_repeats_after_its_delay_and_replaces_gravity() {
    let mut game = new_game();
    let soft = Input { soft_drop_held: true, ..Input::none() };
    game.step(49, &soft, &refill());
    assert_eq!(game.piece.pos, (3, -2));
    game.step(50, &soft, &refill());
    assert_eq!(game.piece.pos, (3, -1));
    assert_eq!(game.timing.last_y_move, 50);
    game.step(99, &soft, &refill());
    assert_eq!(game.piece.pos, (3, -1));
    game.step(1000, &soft, &refill());
    assert_eq!(game.piece.pos, (3, 0));
    assert_eq!(game.timing.last_y_move, 1000);
    assert_eq!(game.timing.last_gravity, 0);
    game.step(1001, &Input::none(), &refill());
    assert_eq!(game.piece.pos, (3, 1));
    assert_eq!(game.timing.last_gravity, 1001);
}

#[test]
fn grounded_piece_locks_after_the_lock_delay() {
    let mut game = new_game();
    game.piece = Tetromino::new(3, Some((4, 17)));
    let soft = Input { soft_drop_held: true, ..Input::none() };
    game.step(1000, &Input::none(), &refill());
    assert_eq!(game.timing.lock_start, Some(1000));
    assert_eq!(game.piece.pos, (4, 17));
    game.step(1100, &soft, &refill());
    assert_eq!(game.timing.lock_start, Some(1000));
    game.step(1199, &soft, &refill());
    assert_eq!(game.timing.lock_start, Some(1000));
    assert_eq!(game.piece.id, 3);
    assert_eq!(game.board, Grid::new());
    game.step(1250, &soft, &refill());
    let mut board = Grid::new();
    for (col, row) in [(5, 18), (6, 18), (5, 19), (6, 19)] {
        board.cells[row][col] = (240, 215, 0);
    }
    assert_eq!(game.board, board);
    assert_eq!(game.score, 2);
    assert_eq!(game.piece, Tetromino::new(5, None));
    assert_eq!(game.timing.lock_start, None);
}

#[test]
fn grounded_piece_does_not_lock_without_a_downward_intent() {
    let mut game = new_game();
    game.piece = Tetromino::new(3, Some((4, 17)));
    game.step(1000, &Input::none(), &refill());
    assert_eq!(game.timing.lock_start, Some(1000));
    game.step(1900, &Input::none(), &refill());
    assert_eq!(game.piece.id, 3);
    assert_eq!(game.board, Grid::new());
    game.step(2000, &Input::none(), &refill());
    assert_eq!(game.piece.id, 5);
    assert_eq!(game.score, 2);
}

#[test]
fn falling_stops_the_lock_timer() {
    let mut game = new_game();
    game.board.cells[19][5] = RED;
    game.piece = Tetromino::new(3, Some((4, 16)));
    game.step(1000, &Input::none(), &refill());
    assert_eq!(game.timing.lock_start, Some(1000));
    game.step(1120, &Input { right_held: true, ..Input::none() }, &refill());
    assert_eq!(game.piece.pos, (5, 16));
    assert_eq!(game.timing.lock_start, Some(1000));
    game.step(2000, &Input::none(), &refill());
    assert_eq!(game.piece.pos, (5, 17));
    assert_eq!(game.timing.lock_start, None);
}

#[test]
fn rotation_starts_the_lock_timer_again() {
    let mut game = new_game();
    game.piece = Tetromino::new(3, Some((4, 17)));
    game.step(1000, &Input::none(), &refill());
    assert_eq!(game.timing.lock_start, Some(1000));
    game.step(1150, &Input { rotate_cw_pressed: true, ..Input::none() }, &refill());
    assert_eq!(game.piece.rotation, 1);
    assert_eq!(game.timing.lock_start, Some(1150));
    let soft = Input { soft_drop_held: true, ..Input::none() };
    game.step(1250, &soft, &refill());
    assert_eq!(game.piece.id, 3);
    assert_eq!(game.timing.lock_start, Some(1150));
    game.step(1350, &soft, &refill());
    assert_eq!(game.piece.id, 5);
}

#[test]
fn rotation_in_the_tick_of_the_lock_postpones_it() {
    let mut game = new_game();
    game.piece = Tetromino::new(3, Some((4, 17)));
    game.step(1000, &Input::none(), &refill());
    let turn = Input { soft_drop_held: true, rotate_ccw_pressed: true, ..Input::none() };
    game.step(1300, &turn, &refill());
    assert_eq!(game.piece, Tetromino { id: 3, rotation: 3, pos: (4, 17), color: (240, 215, 0) });
    assert_eq!(game.timing.lock_start, Some(1300));
    assert_eq!(game.board, Grid::new());
}

#[test]
fn both_rotations_in_one_tick_cancel_out() {
    let mut game = new_game();
    game.piece = Tetromino::new(5, Some((4, 10)));
    let both = Input { rotate_cw_pressed: true, rotate_ccw_pressed: true, ..Input::none() };
    game.step(10, &both, &refill());
    assert_eq!(game.piece, Tetromino::new(5, Some((4, 10))));
    assert_eq!(game.timing.lock_start, Some(10));
}

#[test]
fn moves_come_before_rotation() {
    let mut game = new_game();
    game.piece = Tetromino::new(5, Some((4, 10)));
    let input = Input { right_held: true, rotate_cw_pressed: true, ..Input::none() };
    game.step(1000, &input, &refill());
    assert_eq!(game.piece, Tetromino { id: 5, rotation: 1, pos: (5, 11), color: (110, 40, 230) });
    assert_eq!(game.phantom.pos, (5, 16));
}

#[test]
fn pause_freezes_the_run() {
    let mut game = new_game();
    let pause = Input { pause_pressed: true, left_held: true, hard_drop_pressed: true, ..Input::none() };
    let mut frozen = game.clone();
    frozen.paused = true;
    game.step(500, &pause, &refill());
    assert_eq!(game, frozen);
    game.step(2000, &Input { hold_pressed: true, soft_drop_held: true, ..Input::none() }, &refill());
    assert_eq!(game, frozen);
    game.step(2010, &Input { pause_pressed: true, ..Input::none() }, &refill());
    assert!(!game.paused);
    assert_eq!(game.piece.pos, (3, -1));
    assert_eq!(game.timing.last_gravity, 2010);
}

#[test]
fn ghost_follows_the_piece() {
    let mut game = new_game();
    game.board.cells[10][4] = RED;
    game.update_phantom();
    // The Z piece has cells in column 4 in both of its rows.
    assert_eq!(game.phantom, Tetromino::new(6, Some((3, 7))));
    game.piece.pos = (5, 0);
    game.update_phantom();
    assert_eq!(game.phantom, Tetromino::new(6, Some((5, 17))));
    assert_eq!(game.piece.pos, (5, 0));
}

#[test]
fn single_steps_move_the_piece_where_it_can_go() {
    let mut game = new_game();
    game.piece.pos = (0, 16);
    game.shift_tetromino(-1);
    assert_eq!(game.piece.pos, (0, 16));
    game.shift_tetromino(0);
    assert_eq!(game.piece.pos, (0, 16));
    game.shift_tetromino(1);
    assert_eq!(game.piece.pos, (1, 16));
    game.timing.lock_start = Some(3);
    assert!(!game.fall_tetromino());
    assert_eq!(game.piece.pos, (1, 17));
    assert_eq!(game.timing.lock_start, None);
    game.timing.lock_start = Some(3);
    assert!(game.fall_tetromino());
    assert_eq!(game.piece.pos, (1, 17));
    assert_eq!(game.timing.lock_start, Some(3));
    assert!(!game.move_tetromino(1, false));
    assert_eq!(game.piece.pos, (2, 17));
    assert!(game.move_tetromino(-1, true));
    assert_eq!(game.piece.pos, (1, 17));
}

#[test]
fn debounce_starts_the_timer_then_locks() {
    let mut game = new_game();
    game.piece.pos = (3, 17);
    game.debounce_lock(100, &refill());
    assert_eq!(game.timing.lock_start, Some(100));
    game.debounce_lock(299, &refill());
    assert_eq!(game.timing.lock_start, Some(100));
    assert_eq!(game.score, 0);
    game.debounce_lock(300, &refill());
    assert_eq!(game.score, 2);
    assert_eq!(game.timing.lock_start, None);
    assert_eq!(game.piece, Tetromino::new(5, None));
}

#[test]
fn is_valid_tells_when_a_tick_may_be_played() {
    let game = new_game();
    assert!(game.is_valid(0));
    let mut wrong = game.clone();
    wrong.level = 1;
    assert!(!wrong.is_valid(0));
    let mut wrong = game.clone();
    wrong.timing.last_gravity = 10;
    assert!(!wrong.is_valid(9));
    assert!(wrong.is_valid(10));
    let mut wrong = game.clone();
    wrong.timing.lock_start = Some(11);
    assert!(!wrong.is_valid(10));
    let mut wrong = game.clone();
    wrong.piece.pos = (9, 0);
    assert!(!wrong.is_valid(0));
    let mut wrong = game.clone();
    fill_row_except(&mut wrong.board, 19, 10);
    assert!(!wrong.is_valid(0));
    let mut wrong = game.clone();
    wrong.bag.items.push(0);
    assert!(!wrong.is_valid(0));
    let mut wrong = game.clone();
    wrong.score = u32::MAX - 2399;
    assert!(!wrong.is_valid(0));
    wrong.score = u32::MAX - 2400;
    assert!(wrong.is_valid(0));
    let mut wrong = game.clone();
    wrong.preview.id = 9;
    assert!(!wrong.is_valid(0));
}

#[test]
fn run_plays_a_tick_with_the_shuffle_as_supply() {
    let mut by_run = Game::new(3);
    let mut by_step = Game::new(3);
    let mut state: u64 = 99;
    for tick in 1..=4000u64 {
        state = state.wrapping_mul(6364136223846793005).wrapping_add(1442695040888963407);
        let bits = state >> 40;
        let input = Input {
            left_held: bits & 1 != 0,
            right_held: bits & 2 != 0,
            soft_drop_held: bits & 4 != 0,
            hard_drop_pressed: bits & 0x38 == 0x38,
            hold_pressed: bits & 0x1c0 == 0x1c0,
            rotate_cw_pressed: bits & 0x600 == 0x600,
            rotate_ccw_pressed: bits & 0x1800 == 0x1800,
            pause_pressed: bits & 0xfe000 == 0xfe000,
        };
        let now = tick * 16;
        assert!(by_run.is_valid(now), "tick {}", tick);
        by_run.run(now, &input);
        by_step.step(now, &input, &Supply::Seeded(now));
        assert_eq!(by_run, by_step);
        assert!(by_run.is_valid(now), "tick {}", tick);
        assert!(by_run.board.cells[0].iter().all(|&cell| cell == (20, 20, 20)));
        assert!(by_run.phantom.pos.1 >= by_run.piece.pos.1 || by_run.paused);
    }
}
