use vstd::prelude::*;

use crate::game::{is_first_free, lemma_first_free_unique, GameState};
use crate::global::{
    kick_trials, lemma_piece_colors, BOARD_COLOR, BOARD_HEIGHT, BOARD_WIDTH, SCORE_PER_LINE,
};
use crate::grid::{
    blocked, cell_blocked, empty_grid, empty_row, full_rows, lemma_clear_one_row, row_full,
    stamped, tops_out,
};
use crate::tetromino::Tetromino;
use crate::timing::{Input, Timing};

verus! {

/// Rows above the playfield hold nothing. A piece that lies, at an offset,
/// wholly above the visible rows is blocked there by the walls alone: whether
/// it is blocked does not depend on what the playfield holds.
pub proof fn lemma_rows_above_are_exempt(
    grid: Seq<Seq<(u8, u8, u8)>>,
    other: Seq<Seq<(u8, u8, u8)>>,
    piece: Tetromino,
    dx: int,
    dy: int,
)
    requires
        forall|row: int, col: int| #[trigger] piece.filled(row, col) ==> piece.pos.1 + row + dy < 0,
    ensures
        blocked(grid, piece, dx, dy) == blocked(other, piece, dx, dy),
        blocked(grid, piece, dx, dy) <==> exists|row: int, col: int|
            #[trigger] piece.filled(row, col) && !(0 <= piece.pos.0 + col + dx < BOARD_WIDTH),
{
    if blocked(grid, piece, dx, dy) {
        let (row, col) = choose|row: int, col: int|
            #[trigger] piece.filled(row, col) && cell_blocked(
                grid,
                piece.pos.0 + col + dx,
                piece.pos.1 + row + dy,
            );
        assert(cell_blocked(other, piece.pos.0 + col + dx, piece.pos.1 + row + dy));
        assert(!(0 <= piece.pos.0 + col + dx < BOARD_WIDTH));
    }
    if blocked(other, piece, dx, dy) {
        let (row, col) = choose|row: int, col: int|
            #[trigger] piece.filled(row, col) && cell_blocked(
                other,
                piece.pos.0 + col + dx,
                piece.pos.1 + row + dy,
            );
        assert(cell_blocked(grid, piece.pos.0 + col + dx, piece.pos.1 + row + dy));
    }
    if exists|row: int, col: int|
        #[trigger] piece.filled(row, col) && !(0 <= piece.pos.0 + col + dx < BOARD_WIDTH) {
        let (row, col) = choose|row: int, col: int|
            #[trigger] piece.filled(row, col) && !(0 <= piece.pos.0 + col + dx < BOARD_WIDTH);
        assert(cell_blocked(grid, piece.pos.0 + col + dx, piece.pos.1 + row + dy));
    }
}

/// A locked cell is taken. Every visible cell that a piece covers holds a
/// block once the piece is written into the playfield, and from then on blocks
/// whatever would move into it.
pub proof fn lemma_locked_cells_block(
    grid: Seq<Seq<(u8, u8, u8)>>,
    piece: Tetromino,
    col: int,
    row: int,
)
    requires
        piece.wf(),
        grid.len() == BOARD_HEIGHT,
        grid[row].len() == BOARD_WIDTH,
        0 <= row < BOARD_HEIGHT,
        0 <= col < BOARD_WIDTH,
        piece.covers(col, row),
    ensures
        stamped(grid, piece)[row][col] == piece.color,
        stamped(grid, piece)[row][col] != BOARD_COLOR,
        cell_blocked(stamped(grid, piece), col, row),
{
    lemma_piece_colors(piece.id as int);
}

/// Rotation commits the first free trial. Where the turned piece is free at
/// trial `i` of its kick list and blocked at every trial before it, the piece
/// in play becomes the turned piece moved by the offset of trial `i`: its
/// rotation state advances by one step and its anchor moves by that offset.
/// Nothing but the piece and the lock timer changes.
pub proof fn lemma_rotation_takes_first_free(state: GameState, clockwise: bool, now: u64, i: int)
    requires
        is_first_free(
            state.board,
            state.piece.rotated(clockwise),
            kick_trials(
                state.piece.id as int,
                state.piece.rotation as int,
                state.piece.rotated(clockwise).rotation as int,
            ),
            i,
        ),
    ensures
        ({
            let trials = kick_trials(
                state.piece.id as int,
                state.piece.rotation as int,
                state.piece.rotated(clockwise).rotation as int,
            );
            let after = state.turned(clockwise, now);
            &&& after.piece == state.piece.rotated(clockwise).shifted(
                trials[i].0 as int,
                trials[i].1 as int,
            )
            &&& after.piece.rotation == Tetromino::next_rotation(
                state.piece.rotation as int,
                clockwise,
            )
            &&& after.piece.pos.0 == (state.piece.pos.0 + trials[i].0) as i32
            &&& after.piece.pos.1 == (state.piece.pos.1 + trials[i].1) as i32
            &&& after.timing == state.timing.lock_started(now)
            &&& after == (GameState { piece: after.piece, timing: after.timing, ..state })
        }),
{
    let turned = state.piece.rotated(clockwise);
    let trials = kick_trials(
        state.piece.id as int,
        state.piece.rotation as int,
        turned.rotation as int,
    );
    lemma_first_free_unique(state.board, turned, trials, i);
}

/// A rotation that is blocked at every trial is discarded: where the turned
/// piece is blocked at each offset of its kick list, the state after the
/// request is the state before it, rotation state and anchor included.
pub proof fn lemma_rotation_blocked(state: GameState, clockwise: bool, now: u64)
    requires
        ({
            let turned = state.piece.rotated(clockwise);
            let trials = kick_trials(
                state.piece.id as int,
                state.piece.rotation as int,
                turned.rotation as int,
            );
            forall|i: int|
                0 <= i < trials.len() ==> blocked(
                    state.board,
                    turned,
                    (#[trigger] trials[i]).0 as int,
                    trials[i].1 as int,
                )
        }),
    ensures
        state.turned(clockwise, now) == state,
{
    let turned = state.piece.rotated(clockwise);
    let trials = kick_trials(
        state.piece.id as int,
        state.piece.rotation as int,
        turned.rotation as int,
    );
    assert forall|i: int| !is_first_free(state.board, turned, trials, i) by {
        if 0 <= i < trials.len() {
            assert(blocked(state.board, turned, trials[i].0 as int, trials[i].1 as int));
        }
    }
}

/// Line clear on lock. Where the piece in play does not end the run and
/// locking it leaves row `full` as the only full row, that row disappears:
/// afterwards row 0 is empty, each row above `full` has moved down by exactly
/// one, the rows below `full` are as the lock left them, and the line count
/// has grown by one.
pub proof fn lemma_lock_clears_one_row(state: GameState, fresh: Seq<usize>, full: int)
    requires
        !tops_out(state.piece),
        stamped(state.board, state.piece).len() == BOARD_HEIGHT,
        0 <= full < BOARD_HEIGHT,
        forall|row: int|
            0 <= row < BOARD_HEIGHT ==> (row_full(#[trigger] stamped(state.board, state.piece)[row])
                <==> row == full),
    ensures
        ({
            let filled = stamped(state.board, state.piece);
            let after = state.locked(fresh);
            &&& after.board.len() == BOARD_HEIGHT
            &&& after.board[0] == empty_row()
            &&& forall|row: int| 0 < row <= full ==> #[trigger] after.board[row] == filled[row - 1]
            &&& forall|row: int|
                full < row < BOARD_HEIGHT ==> #[trigger] after.board[row] == filled[row]
            &&& after.lines == state.lines + 1
        }),
{
    lemma_clear_one_row(stamped(state.board, state.piece), full);
}

/// The scoring formula. A lock that clears `n` rows, with `n` from 0 to 4,
/// adds `SCORE_PER_LINE[n]` times the level plus one to the score: 2, 100,
/// 300, 500 or 800 points at level 0, and 6, 300, 900, 1500 or 2400 points at
/// level 2. It adds `n` to the line count, and the level becomes a tenth of
/// the line count, rounded down.
pub proof fn lemma_scoring(state: GameState, fresh: Seq<usize>)
    requires
        !tops_out(state.piece),
        full_rows(stamped(state.board, state.piece)) <= 4,
    ensures
        ({
            let n = full_rows(stamped(state.board, state.piece));
            let after = state.locked(fresh);
            let gain = after.score - state.score;
            &&& gain == SCORE_PER_LINE[n as int] * (state.level + 1)
            &&& state.level == 0 ==> gain == (if n == 0 {
                2int
            } else if n == 1 {
                100int
            } else if n == 2 {
                300int
            } else if n == 3 {
                500int
            } else {
                800int
            })
            &&& state.level == 2 ==> gain == (if n == 0 {
                6int
            } else if n == 1 {
                300int
            } else if n == 2 {
                900int
            } else if n == 3 {
                1500int
            } else {
                2400int
            })
            &&& after.lines == state.lines + n
            &&& after.level == after.lines / 10
        }),
{
    let n = full_rows(stamped(state.board, state.piece));
    assert(SCORE_PER_LINE[0] == 2 && SCORE_PER_LINE[1] == 100 && SCORE_PER_LINE[2] == 300
        && SCORE_PER_LINE[3] == 500 && SCORE_PER_LINE[4] == 800);
    let points = SCORE_PER_LINE[n as int];
    assert(n == 0 || n == 1 || n == 2 || n == 3 || n == 4);
    if state.level == 0 {
        assert(points * (state.level + 1) == points) by (nonlinear_arith)
            requires
                state.level == 0,
        ;
    }
    if state.level == 2 {
        assert(points * (state.level + 1) == 3 * points) by (nonlinear_arith)
            requires
                state.level == 2,
        ;
    }
}

/// Hold exclusivity. A hold request uses hold up, and while hold is used up
/// a further hold request changes nothing. Moving and turning the piece do
/// not give hold back; the next piece that enters play does, whether it comes
/// after a lock or at the start of a new run.
pub proof fn lemma_hold_exclusive(
    state: GameState,
    fresh: Seq<usize>,
    again: Seq<usize>,
    dx: int,
    falls: bool,
    clockwise: bool,
    now: u64,
)
    ensures
        state.held(fresh).hold_used,
        state.held(fresh).held(again) == state.held(fresh),
        state.hold_used ==> state.held(fresh) == state,
        state.shifted(dx).hold_used == state.hold_used,
        state.fallen().hold_used == state.hold_used,
        state.turned(clockwise, now).hold_used == state.hold_used,
        !state.spawned(fresh).hold_used,
        !state.locked(fresh).hold_used,
{
}

/// A hold request that comes too early is ignored. While hold is used up, a
/// tick with a hold request ends as the same tick without the request would.
pub proof fn lemma_hold_request_ignored(state: GameState, now: u64, input: Input, fresh: Seq<usize>)
    requires
        state.hold_used,
    ensures
        state.tick(now, Input { hold_pressed: true, ..input }, fresh) == state.tick(
            now,
            Input { hold_pressed: false, ..input },
            fresh,
        ),
{
    let with = Input { hold_pressed: true, ..input };
    let without = Input { hold_pressed: false, ..input };
    assert(state.timing.sampled(now, with) == state.timing.sampled(now, without));
    assert(state.timing.shift(now, with) == state.timing.shift(now, without));
    assert(state.timing.falls(now, with) == state.timing.falls(now, without));
    let toggled_with = GameState {
        paused: if with.pause_pressed {
            !state.paused
        } else {
            state.paused
        },
        ..state
    };
    let sampled = GameState { timing: state.timing.sampled(now, with), ..toggled_with };
    assert(sampled.held(fresh) == sampled);
    assert(sampled.acted(with, fresh) == sampled.acted(without, fresh));
    assert(forall|s: GameState| s.spun(with, now) == s.spun(without, now));
}

/// Game over. Locking a piece that has a cell above the visible rows, or in
/// the topmost of them, starts the run anew: the playfield is empty, score,
/// line count and level are zero, the bag is the fresh one less the two
/// identities that it dealt, the piece in play and the preview are those two
/// as they enter play, nothing is held, hold is allowed, and the timing is
/// that of a new run. Nothing of the old run is left.
pub proof fn lemma_game_over_resets(state: GameState, fresh: Seq<usize>, row: int, col: int)
    requires
        state.piece.filled(row, col),
        state.piece.pos.1 + row <= 0,
    ensures
        state.locked(fresh) == GameState::initial(fresh),
        state.locked(fresh).board == empty_grid(),
        state.locked(fresh).score == 0,
        state.locked(fresh).lines == 0,
        state.locked(fresh).level == 0,
        state.locked(fresh).bag == fresh.take(5),
        state.locked(fresh).piece == Tetromino::fresh(fresh[6]),
        state.locked(fresh).preview == Tetromino::fresh(fresh[5]),
        state.locked(fresh).empty_hold,
        !state.locked(fresh).hold_used,
        state.locked(fresh).timing == Timing::initial(),
        !state.locked(fresh).paused,
{
}

} // verus!
