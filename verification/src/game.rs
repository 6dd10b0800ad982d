use vstd::prelude::*;

use crate::bag::{after_next, all_ids, lemma_permutation_facts, next_id, shuffle_of, Bag, Supply};
use crate::global::{
    kick_trials, kicks_are_sound, kicks_for, lemma_kick_trials, BOARD_HEIGHT, BOARD_WIDTH,
    PIECE_COUNT, SCORE_PER_LINE, TETROMINO_SPAWN_POS,
};
use crate::grid::{
    blocked, cleared, empty_grid, full_rows, in_play, is_grid, is_in_play, is_tag, landed,
    lemma_empty_grid_settled, lemma_in_bounds_range, lemma_kick_up, lemma_spawn_in_play,
    lemma_stamped_full_rows, lemma_unblocked_in_bounds, settled, stamped, tops_out, Grid,
};
use crate::tetromino::Tetromino;
use crate::timing::{Input, Timing};

verus! {

/// The engine: the playfield, the pieces, the randomizer, the counters and
/// the timing controller of one run.
#[derive(Clone, Debug, PartialEq, Eq)]
pub struct Game {
    pub bag: Bag,
    pub board: Grid,
    pub piece: Tetromino,
    pub preview: Tetromino,
    pub phantom: Tetromino,
    pub hold: Tetromino,
    pub empty_hold: bool,
    pub hold_used: bool,
    pub score: u32,
    pub lines: u32,
    pub level: u32,
    pub timing: Timing,
    pub paused: bool,
}

/// The state of a run as a mathematical value. `hold` is the piece set aside
/// unless `empty_hold` says that there is none; `hold_used` says that the
/// piece in play came from, or went through, a hold already.
pub struct GameState {
    pub bag: Seq<usize>,
    pub board: Seq<Seq<(u8, u8, u8)>>,
    pub piece: Tetromino,
    pub preview: Tetromino,
    pub phantom: Tetromino,
    pub hold: Tetromino,
    pub empty_hold: bool,
    pub hold_used: bool,
    pub score: nat,
    pub lines: nat,
    pub level: nat,
    pub timing: Timing,
    pub paused: bool,
}

impl View for Game {
    type V = GameState;

    open spec fn view(&self) -> GameState {
        GameState {
            bag: self.bag@,
            board: self.board@,
            piece: self.piece,
            preview: self.preview,
            phantom: self.phantom,
            hold: self.hold,
            empty_hold: self.empty_hold,
            hold_used: self.hold_used,
            score: self.score as nat,
            lines: self.lines as nat,
            level: self.level as nat,
            timing: self.timing,
            paused: self.paused,
        }
    }
}

/// Whether `i` is the first of `trials` at which `piece` is not blocked.
pub open spec fn is_first_free(
    grid: Seq<Seq<(u8, u8, u8)>>,
    piece: Tetromino,
    trials: Seq<(i32, i32)>,
    i: int,
) -> bool {
    &&& 0 <= i < trials.len()
    &&& !blocked(grid, piece, trials[i].0 as int, trials[i].1 as int)
    &&& forall|j: int|
        0 <= j < i ==> blocked(grid, piece, (#[trigger] trials[j]).0 as int, trials[j].1 as int)
}

/// The first of `trials` at which `piece` is not blocked, if there is one.
pub open spec fn first_free(
    grid: Seq<Seq<(u8, u8, u8)>>,
    piece: Tetromino,
    trials: Seq<(i32, i32)>,
) -> Option<int> {
    if exists|i: int| is_first_free(grid, piece, trials, i) {
        Some(choose|i: int| is_first_free(grid, piece, trials, i))
    } else {
        None
    }
}

/// There is one first free trial at most.
pub proof fn lemma_first_free_unique(
    grid: Seq<Seq<(u8, u8, u8)>>,
    piece: Tetromino,
    trials: Seq<(i32, i32)>,
    i: int,
)
    requires
        is_first_free(grid, piece, trials, i),
    ensures
        first_free(grid, piece, trials) == Some(i),
{
    let other = choose|k: int| is_first_free(grid, piece, trials, k);
    assert(is_first_free(grid, piece, trials, other));
    if other < i {
        assert(blocked(grid, piece, trials[other].0 as int, trials[other].1 as int));
    } else if i < other {
        assert(blocked(grid, piece, trials[i].0 as int, trials[i].1 as int));
    }
}

impl GameState {
    /// What holds of the state between two ticks.
    pub open spec fn wf(self) -> bool {
        &&& self.bag.no_duplicates()
        &&& forall|i: int| 0 <= i < self.bag.len() ==> #[trigger] self.bag[i] < PIECE_COUNT
        &&& is_grid(self.board)
        &&& forall|row: int, col: int|
            0 <= row < BOARD_HEIGHT && 0 <= col < BOARD_WIDTH ==> is_tag(
                #[trigger] self.board[row][col],
            )
        &&& settled(self.board)
        &&& self.piece.wf()
        &&& in_play(self.piece)
        &&& self.preview.wf()
        &&& self.hold.wf()
        &&& self.level == self.lines / 10
    }

    /// The score, the line count and the level.
    pub open spec fn counters(self) -> (nat, nat, nat) {
        (self.score, self.lines, self.level)
    }

    /// The counters leave room for one lock: neither the score nor the line
    /// count can pass the largest number that they can hold.
    pub open spec fn can_lock(self) -> bool {
        &&& self.score + 800 * (self.level + 1) <= u32::MAX
        &&& self.lines + 4 <= u32::MAX
    }

    /// The counters leave room for the two locks that one tick can bring: that
    /// of a hard drop and that of the piece after it.
    pub open spec fn can_tick(self) -> bool {
        &&& self.score + 800 * (2 * self.level + 3) <= u32::MAX
        &&& self.lines + 8 <= u32::MAX
    }

    /// The state at the start of a run whose first bag is `fresh`: an empty
    /// playfield, the last identity of the bag in play at the spawn anchor, the
    /// one before it as preview, nothing held, all counters at zero, no timer
    /// running.
    pub open spec fn initial(fresh: Seq<usize>) -> GameState {
        let piece = Tetromino::fresh(fresh[6]);
        GameState {
            bag: fresh.take(5),
            board: empty_grid(),
            piece: piece,
            preview: Tetromino::fresh(fresh[5]),
            phantom: landed(empty_grid(), piece),
            hold: Tetromino::fresh(0),
            empty_hold: true,
            hold_used: false,
            score: 0,
            lines: 0,
            level: 0,
            timing: Timing::initial(),
            paused: false,
        }
    }

    /// The next piece enters play: the preview moves to the spawn anchor, the
    /// bag deals a new preview (refilled from `fresh` if it is empty), hold is
    /// allowed again and no lock timer runs.
    pub open spec fn spawned(self, fresh: Seq<usize>) -> GameState {
        GameState {
            bag: after_next(self.bag, fresh),
            piece: self.preview.moved_to(TETROMINO_SPAWN_POS),
            preview: Tetromino::fresh(next_id(self.bag, fresh)),
            hold_used: false,
            timing: self.timing.unlocked(),
            ..self
        }
    }

    /// A hold request. It has no effect where the piece in play was held
    /// already. Else, where nothing is held, the piece in play is set aside
    /// and the next piece enters play; where a piece is held, the two change
    /// places and the one that comes into play goes to the spawn anchor. Either
    /// way no lock timer runs afterwards, and hold is used up.
    pub open spec fn held(self, fresh: Seq<usize>) -> GameState {
        if self.hold_used {
            self
        } else if self.empty_hold {
            GameState {
                hold_used: true,
                ..(GameState { hold: self.piece, empty_hold: false, ..self }).spawned(fresh)
            }
        } else {
            GameState {
                piece: self.hold.moved_to(TETROMINO_SPAWN_POS),
                hold: self.piece,
                hold_used: true,
                timing: self.timing.unlocked(),
                ..self
            }
        }
    }

    /// The piece in play is written into the playfield.
    pub open spec fn placed(self) -> GameState {
        GameState { board: stamped(self.board, self.piece), ..self }
    }

    /// Line clear and scoring: the full rows go, the line count grows by their
    /// number `n`, the score by `SCORE_PER_LINE[n]` times the level plus one,
    /// and where the line count reaches a new level the gravity delay follows.
    pub open spec fn scored(self) -> GameState {
        let n = full_rows(self.board);
        let lines = self.lines + n;
        let level = lines / 10;
        GameState {
            board: cleared(self.board),
            score: (self.score + SCORE_PER_LINE[n as int] * (self.level + 1)) as nat,
            lines: lines,
            level: level,
            timing: if level != self.level {
                self.timing.leveled(level)
            } else {
                self.timing
            },
            ..self
        }
    }

    /// The piece in play locks. Where one of its cells lies in the topmost
    /// visible row or above, the run is over and a new one starts with the bag
    /// `fresh`, with nothing kept. Else the piece is placed, lines are cleared
    /// and scored, and the next piece enters play.
    pub open spec fn locked(self, fresh: Seq<usize>) -> GameState {
        if tops_out(self.piece) {
            Self::initial(fresh)
        } else {
            self.placed().scored().spawned(fresh)
        }
    }

    /// A hard drop: the piece in play falls to where it comes to rest and
    /// locks there at once.
    pub open spec fn dropped(self, fresh: Seq<usize>) -> GameState {
        (GameState { piece: landed(self.board, self.piece), ..self }).locked(fresh)
    }

    /// A rotation request at `now`. The piece turned by one step is tried at
    /// each offset of its kick list in order; at the first offset at which it
    /// is not blocked it replaces the piece in play, and the lock timer is
    /// started again. Where it is blocked at every offset nothing changes.
    pub open spec fn turned(self, clockwise: bool, now: u64) -> GameState {
        let turned = self.piece.rotated(clockwise);
        let trials = kick_trials(
            self.piece.id as int,
            self.piece.rotation as int,
            turned.rotation as int,
        );
        match first_free(self.board, turned, trials) {
            Some(i) => GameState {
                piece: turned.shifted(trials[i].0 as int, trials[i].1 as int),
                timing: self.timing.lock_started(now),
                ..self
            },
            None => self,
        }
    }

    /// A horizontal intent `dx`: the piece moves by it unless it is blocked
    /// there.
    pub open spec fn shifted(self, dx: int) -> GameState {
        if dx != 0 && !blocked(self.board, self.piece, dx, 0) {
            GameState { piece: self.piece.shifted(dx, 0), ..self }
        } else {
            self
        }
    }

    /// Whether the piece in play cannot move down by one row.
    pub open spec fn grounded(self) -> bool {
        blocked(self.board, self.piece, 0, 1)
    }

    /// A downward intent that is not blocked: the piece moves down by one row,
    /// which stops the lock timer.
    pub open spec fn fallen(self) -> GameState {
        if self.grounded() {
            self
        } else {
            GameState {
                piece: self.piece.shifted(0, 1),
                timing: self.timing.unlocked(),
                ..self
            }
        }
    }

    /// The lock delay after a downward intent that was blocked: a timer that
    /// does not run is started at `now`; where it has run for the lock delay
    /// the piece locks; else nothing happens.
    pub open spec fn debounced(self, now: u64, fresh: Seq<usize>) -> GameState {
        if self.timing.lock_start is None {
            GameState { timing: self.timing.lock_started(now), ..self }
        } else if self.timing.lock_due(now) {
            self.locked(fresh)
        } else {
            self
        }
    }

    /// The ghost is brought up to date.
    pub open spec fn projected(self) -> GameState {
        GameState { phantom: landed(self.board, self.piece), ..self }
    }

    /// The requests that replace the piece in play are served: a hold request
    /// first, then a hard drop.
    pub open spec fn acted(self, input: Input, fresh: Seq<usize>) -> GameState {
        let after_hold = if input.hold_pressed {
            self.held(fresh)
        } else {
            self
        };
        if input.hard_drop_pressed {
            after_hold.dropped(fresh)
        } else {
            after_hold
        }
    }

    /// The intents are resolved: the piece moves sideways by `dx` if it can,
    /// and then, where `falls` asks for it, down by one row if it can.
    pub open spec fn moved(self, dx: int, falls: bool) -> GameState {
        if falls {
            self.shifted(dx).fallen()
        } else {
            self.shifted(dx)
        }
    }

    /// Whether the downward intent of a tick is blocked: the piece is asked to
    /// move down and, after its move sideways, cannot.
    pub open spec fn stuck(self, dx: int, falls: bool) -> bool {
        falls && self.shifted(dx).grounded()
    }

    /// The rotation requests of a tick are served, clockwise first.
    pub open spec fn spun(self, input: Input, now: u64) -> GameState {
        let after_cw = if input.rotate_cw_pressed {
            self.turned(true, now)
        } else {
            self
        };
        if input.rotate_ccw_pressed {
            after_cw.turned(false, now)
        } else {
            after_cw
        }
    }

    /// What one tick does to a run that is not paused, up to the ghost: the
    /// intents are taken; a hold request and a hard drop are served; the piece
    /// moves sideways and down as far as it is asked to and can; rotation
    /// requests are served; and where the piece was asked to move down and
    /// could not, the lock delay decides.
    pub open spec fn played(self, now: u64, input: Input, fresh: Seq<usize>) -> GameState {
        let dx = self.timing.shift(now, input);
        let falls = self.timing.falls(now, input);
        let sampled = GameState { timing: self.timing.sampled(now, input), ..self };
        let acted = sampled.acted(input, fresh);
        let spun = acted.moved(dx, falls).spun(input, now);
        if acted.stuck(dx, falls) {
            spun.debounced(now, fresh)
        } else {
            spun
        }
    }

    /// One tick at time `now` with the input `input`, where a bag that runs
    /// empty is refilled from `fresh`. A pause request toggles the pause; a
    /// paused run does not change otherwise; a run that is not paused plays
    /// the tick and brings its ghost up to date.
    pub open spec fn tick(self, now: u64, input: Input, fresh: Seq<usize>) -> GameState {
        let paused = if input.pause_pressed {
            !self.paused
        } else {
            self.paused
        };
        let toggled = GameState { paused: paused, ..self };
        if paused {
            toggled
        } else {
            toggled.played(now, input, fresh).projected()
        }
    }
}

impl Game {
    /// What holds of the engine between two ticks: the bag holds identities,
    /// none twice; the playfield has its size, holds tags only and has no full
    /// row; the piece in play is in play; the preview and the held piece are
    /// pieces; and the level is a tenth of the line count, rounded down.
    pub open spec fn wf(&self) -> bool {
        self@.wf()
    }

    /// Whether a tick at `now` may be played: whether the engine is well
    /// formed, its counters leave room for the locks of one tick, and no time
    /// that it recorded lies after `now`.
    pub fn is_valid(&self, now: u64) -> (ok: bool)
        ensures
            ok == (self.wf() && self@.can_tick() && self.timing.not_after(now)),
    {
        let well_formed = self.bag.is_wf() && self.board.is_wf() && self.board.is_settled()
            && self.piece.is_wf() && is_in_play(&self.piece) && self.preview.is_wf()
            && self.hold.is_wf() && self.level == self.lines / 10;
        let room = self.score as u64 + 800 * (2 * self.level as u64 + 3) <= u32::MAX as u64
            && self.lines as u64 + 8 <= u32::MAX as u64;
        let in_time = self.timing.last_x_move <= now && self.timing.last_y_move <= now
            && self.timing.last_gravity <= now && match self.timing.lock_start {
            Some(start) => start <= now,
            None => true,
        };
        well_formed && room && in_time
    }

    /// Starts a run whose first bag comes from `supply`.
    pub fn start(supply: &Supply) -> (game: Game)
        requires
            supply.wf(),
        ensures
            game@ == GameState::initial(supply@),
            game.wf(),
    {
        let mut bag = Bag::new();
        let first = bag.next(supply);
        let second = bag.next(supply);
        proof {
            lemma_permutation_facts(supply@);
        }
        assert(bag@ =~= supply@.take(5));
        let board = Grid::new();
        let piece = Tetromino::new(first, None);
        proof {
            lemma_spawn_in_play(piece);
            lemma_empty_grid_settled();
        }
        let phantom = board.landing(&piece);
        Game {
            bag,
            board,
            piece,
            preview: Tetromino::new(second, None),
            phantom,
            hold: Tetromino::new(0, None),
            empty_hold: true,
            hold_used: false,
            score: 0,
            lines: 0,
            level: 0,
            timing: Timing::new(),
            paused: false,
        }
    }

    /// Starts a run whose first bag is shuffled with `seed`.
    pub fn new(seed: u64) -> (game: Game)
        ensures
            game@ == GameState::initial(shuffle_of(all_ids(), seed)),
            game.wf(),
    {
        Game::start(&Supply::Seeded(seed))
    }

    /// Brings the next piece into play: the preview goes to the spawn anchor
    /// and the bag, refilled from `supply` if it is empty, deals a new preview.
    /// Hold is allowed again and no lock timer runs.
    pub fn update_bag(&mut self, supply: &Supply)
        requires
            old(self).wf(),
            supply.wf(),
        ensures
            final(self)@ == old(self)@.spawned(supply@),
            final(self).wf(),
    {
        self.piece = self.preview;
        self.piece.pos = TETROMINO_SPAWN_POS;
        let id = self.bag.next(supply);
        self.preview = Tetromino::new(id, None);
        self.hold_used = false;
        self.timing.lock_start = None;
        proof {
            lemma_spawn_in_play(old(self).preview);
        }
    }

    /// Serves a rotation request at `now`: tries the turned piece at each
    /// offset of its kick list in order and commits the first at which it is
    /// not blocked, which starts the lock timer again. Where every offset is
    /// blocked the piece stays as it is.
    pub fn rotate_tetromino(&mut self, clockwise: bool, now: u64)
        requires
            old(self).wf(),
        ensures
            final(self)@ == old(self)@.turned(clockwise, now),
            final(self).wf(),
            final(self)@.counters() == old(self)@.counters(),
            old(self).timing.not_after(now) ==> final(self).timing.not_after(now),
    {
        let from = self.piece.rotation;
        let mut test_piece = self.piece;
        test_piece.rotate_shape(clockwise);
        let to = test_piece.rotation;
        let kicks = kicks_for(self.piece.id, from, to);
        proof {
            lemma_kick_trials(self.piece.id as int, from as int, to as int);
        }
        let mut i: usize = 0;
        while i < kicks.len()
            invariant
                i <= kicks@.len(),
                *self == *old(self),
                self.wf(),
                test_piece == self.piece.rotated(clockwise),
                test_piece.wf(),
                kicks_are_sound(kicks@),
                kicks@ == kick_trials(
                    self.piece.id as int,
                    self.piece.rotation as int,
                    test_piece.rotation as int,
                ),
                forall|j: int|
                    0 <= j < i ==> blocked(
                        self.board@,
                        test_piece,
                        (#[trigger] kicks@[j]).0 as int,
                        kicks@[j].1 as int,
                    ),
            decreases kicks@.len() - i,
        {
            let (kx, ky) = kicks[i];
            if !self.board.is_blocked(&test_piece, kx, ky) {
                proof {
                    assert(is_first_free(self.board@, test_piece, kicks@, i as int));
                    lemma_first_free_unique(self.board@, test_piece, kicks@, i as int);
                    assert(-2 <= kicks@[i as int].0 <= 2 && -2 <= kicks@[i as int].1 <= 2);
                    lemma_in_bounds_range(self.piece);
                    lemma_unblocked_in_bounds(self.board@, test_piece, kx as int, ky as int);
                    if ky < 0 {
                        let flat = choose|j: int|
                            0 <= j < i && (#[trigger] kicks@[j]).0 == kicks@[i as int].0
                                && kicks@[j].1 == 0;
                        assert(blocked(self.board@, test_piece, kicks@[flat].0 as int, 0));
                        lemma_kick_up(self.board@, test_piece, kx as int, ky as int);
                    }
                }
                self.piece = Tetromino {
                    id: test_piece.id,
                    rotation: test_piece.rotation,
                    pos: (test_piece.pos.0 + kx, test_piece.pos.1 + ky),
                    color: test_piece.color,
                };
                self.timing.lock_start = Some(now);
                return ;
            }
            i += 1;
        }
        proof {
            assert forall|k: int| !is_first_free(self.board@, test_piece, kicks@, k) by {
                if 0 <= k < kicks@.len() {
                    assert(blocked(
                        self.board@,
                        test_piece,
                        kicks@[k].0 as int,
                        kicks@[k].1 as int,
                    ));
                }
            }
        }
    }

    /// Whether a cell of the piece in play lies in the topmost visible row or
    /// above it, so that locking the piece ends the run.
    pub fn tops_out(&self) -> (over: bool)
        requires
            self.piece.wf(),
            in_play(self.piece),
        ensures
            over == tops_out(self.piece),
    {
        let mask = self.piece.shape();
        let mut k: usize = 0;
        while k < 16
            invariant
                k <= 16,
                self.piece.wf(),
                in_play(self.piece),
                forall|r: int, c: int|
                    0 <= r < 4 && 0 <= c < 4 ==> #[trigger] mask[r][c] == self.piece.filled(r, c),
                forall|r: int, c: int|
                    4 * r + c < k && #[trigger] self.piece.filled(r, c) ==> self.piece.pos.1 + r > 0,
            decreases 16 - k,
        {
            let row = k / 4;
            let col = k % 4;
            if mask[row][col] {
                assert(self.piece.filled(row as int, col as int));
                if self.piece.pos.1 + row as i32 <= 0 {
                    return true;
                }
            }
            k += 1;
        }
        false
    }

    /// Ends the run where locking the piece in play would reach the topmost
    /// visible row or the rows above it: a new run starts with a bag from
    /// `supply`, and nothing of the old one is kept. Returns whether it did.
    pub fn check_game_over(&mut self, supply: &Supply) -> (over: bool)
        requires
            old(self).wf(),
            supply.wf(),
        ensures
            over == tops_out(old(self).piece),
            over ==> final(self)@ == GameState::initial(supply@),
            !over ==> *final(self) == *old(self),
            final(self).wf(),
    {
        if self.tops_out() {
            *self = Game::start(supply);
            true
        } else {
            false
        }
    }

    /// Clears the full rows and scores them: the line count grows by their
    /// number, the score by the points for that number times the level plus
    /// one, and a line count that reaches a new level sets the level and its
    /// gravity delay.
    pub fn clear_lines(&mut self)
        requires
            old(self).board.wf(),
            full_rows(old(self).board@) <= 4,
            old(self)@.can_lock(),
        ensures
            final(self)@ == old(self)@.scored(),
            final(self).board.wf(),
            settled(final(self).board@),
            final(self).level == final(self).lines / 10,
            old(self).level == old(self).lines / 10 && old(self)@.can_tick()
                ==> final(self)@.can_lock(),
    {
        let new_lines = self.board.clear_lines();
        self.lines += new_lines as u32;
        let points = SCORE_PER_LINE[new_lines];
        assert(points * (self.level + 1) <= 800 * (self.level + 1)) by (nonlinear_arith)
            requires
                0 <= points <= 800,
        ;
        self.score += points * (self.level + 1);
        if self.level != self.lines / 10 {
            self.level = self.lines / 10;
            self.timing.set_level(self.level);
        }
    }

    /// Locks the piece in play. A piece that reaches the topmost visible row
    /// or the rows above it ends the run, and a new one starts with a bag from
    /// `supply`. Any other piece is written into the playfield; then lines are
    /// cleared and scored and the next piece enters play.
    pub fn place_tetromino(&mut self, supply: &Supply)
        requires
            old(self).wf(),
            old(self)@.can_lock(),
            supply.wf(),
        ensures
            final(self)@ == old(self)@.locked(supply@),
            final(self).wf(),
            old(self).timing.keeps_time(final(self).timing),
            old(self)@.can_tick() ==> final(self)@.can_lock(),
    {
        if self.check_game_over(supply) {
            return ;
        }
        let piece = self.piece;
        self.board.place(&piece);
        proof {
            lemma_stamped_full_rows(old(self).board@, piece);
        }
        self.clear_lines();
        self.update_bag(supply);
    }

    /// A hard drop: the piece in play falls to where it comes to rest and
    /// locks there at once.
    pub fn drop_tetromino(&mut self, supply: &Supply)
        requires
            old(self).wf(),
            old(self)@.can_lock(),
            supply.wf(),
        ensures
            final(self)@ == old(self)@.dropped(supply@),
            final(self).wf(),
            old(self).timing.keeps_time(final(self).timing),
            old(self)@.can_tick() ==> final(self)@.can_lock(),
    {
        self.piece = self.board.landing(&self.piece);
        self.place_tetromino(supply);
    }

    /// Serves a hold request. Where the piece in play was held already
    /// nothing happens. Else the piece is set aside: where nothing was held
    /// the next piece enters play, where a piece was held it comes back into
    /// play at the spawn anchor. No lock timer runs afterwards.
    pub fn hold_tetromino(&mut self, supply: &Supply)
        requires
            old(self).wf(),
            supply.wf(),
        ensures
            final(self)@ == old(self)@.held(supply@),
            final(self).wf(),
            final(self)@.counters() == old(self)@.counters(),
            old(self).timing.keeps_time(final(self).timing),
    {
        if self.hold_used {
            return ;
        }
        if self.empty_hold {
            self.hold = self.piece;
            self.empty_hold = false;
            self.update_bag(supply);
        } else {
            let held = self.hold;
            self.hold = self.piece;
            self.piece = held;
            self.piece.pos = TETROMINO_SPAWN_POS;
            self.timing.lock_start = None;
            proof {
                lemma_spawn_in_play(held);
            }
        }
        self.hold_used = true;
    }

    /// Brings the ghost up to date: the piece in play, dropped as far as the
    /// collision resolver allows.
    pub fn update_phantom(&mut self)
        requires
            old(self).wf(),
        ensures
            final(self)@ == old(self)@.projected(),
            final(self).wf(),
            final(self).phantom.wf(),
            in_play(final(self).phantom),
            final(self).timing == old(self).timing,
    {
        self.phantom = self.board.landing(&self.piece);
    }

    /// Serves a horizontal intent: moves the piece in play by `dx` columns
    /// unless it is blocked there.
    pub fn shift_tetromino(&mut self, dx: i32)
        requires
            old(self).wf(),
            -1 <= dx <= 1,
        ensures
            final(self)@ == old(self)@.shifted(dx as int),
            final(self).wf(),
            final(self)@.counters() == old(self)@.counters(),
            old(self).timing.keeps_time(final(self).timing),
    {
        if dx != 0 && !self.board.is_blocked(&self.piece, dx, 0) {
            proof {
                lemma_in_bounds_range(self.piece);
                lemma_unblocked_in_bounds(self.board@, self.piece, dx as int, 0);
            }
            self.piece.pos.0 = self.piece.pos.0 + dx;
        }
    }

    /// Serves a downward intent: moves the piece in play down by one row,
    /// which stops the lock timer, unless it is blocked there. Returns whether
    /// it was blocked.
    pub fn fall_tetromino(&mut self) -> (stuck: bool)
        requires
            old(self).wf(),
        ensures
            stuck == old(self)@.grounded(),
            final(self)@ == old(self)@.fallen(),
            final(self).wf(),
            final(self)@.counters() == old(self)@.counters(),
            old(self).timing.keeps_time(final(self).timing),
    {
        if self.board.is_blocked(&self.piece, 0, 1) {
            true
        } else {
            proof {
                lemma_in_bounds_range(self.piece);
                lemma_unblocked_in_bounds(self.board@, self.piece, 0, 1);
            }
            self.piece.pos.1 = self.piece.pos.1 + 1;
            self.timing.lock_start = None;
            false
        }
    }

    /// The lock delay, after a downward intent that was blocked: starts the
    /// lock timer at `now` if it does not run, locks the piece if the timer
    /// has run for the lock delay, and does nothing else.
    pub fn debounce_lock(&mut self, now: u64, supply: &Supply)
        requires
            old(self).wf(),
            old(self)@.can_lock(),
            old(self).timing.not_after(now),
            supply.wf(),
        ensures
            final(self)@ == old(self)@.debounced(now, supply@),
            final(self).wf(),
            final(self).timing.not_after(now),
    {
        match self.timing.lock_start {
            None => {
                self.timing.lock_start = Some(now);
            },
            Some(start) => {
                if now - start >= self.timing.lock_delay {
                    self.place_tetromino(supply);
                }
            },
        }
    }

    /// Serves the requests that replace the piece in play: a hold request
    /// first, then a hard drop.
    pub fn serve_actions(&mut self, input: &Input, supply: &Supply)
        requires
            old(self).wf(),
            old(self)@.can_tick(),
            supply.wf(),
        ensures
            final(self)@ == old(self)@.acted(*input, supply@),
            final(self).wf(),
            final(self)@.can_lock(),
            old(self).timing.keeps_time(final(self).timing),
    {
        if input.hold_pressed {
            self.hold_tetromino(supply);
        }
        if input.hard_drop_pressed {
            self.drop_tetromino(supply);
        }
    }

    /// Resolves the intents of a tick: moves the piece sideways by `dx` if it
    /// can and then, where `falls` asks for it, down by one row if it can.
    /// Returns whether the piece was asked to move down and could not.
    pub fn move_tetromino(&mut self, dx: i32, falls: bool) -> (stuck: bool)
        requires
            old(self).wf(),
            -1 <= dx <= 1,
        ensures
            final(self)@ == old(self)@.moved(dx as int, falls),
            stuck == old(self)@.stuck(dx as int, falls),
            final(self).wf(),
            final(self)@.counters() == old(self)@.counters(),
            old(self).timing.keeps_time(final(self).timing),
    {
        self.shift_tetromino(dx);
        if falls {
            self.fall_tetromino()
        } else {
            false
        }
    }

    /// Serves the rotation requests of a tick, clockwise first.
    pub fn serve_rotations(&mut self, input: &Input, now: u64)
        requires
            old(self).wf(),
        ensures
            final(self)@ == old(self)@.spun(*input, now),
            final(self).wf(),
            final(self)@.counters() == old(self)@.counters(),
            old(self).timing.not_after(now) ==> final(self).timing.not_after(now),
    {
        if input.rotate_cw_pressed {
            self.rotate_tetromino(true, now);
        }
        if input.rotate_ccw_pressed {
            self.rotate_tetromino(false, now);
        }
    }

    /// Plays one tick of a run that is not paused, up to the ghost. The
    /// intents are taken from the held keys and the delays; a hold request and
    /// a hard drop are served; the piece moves sideways and down as far as it
    /// is asked to and can, and a move down stops the lock timer; rotation
    /// requests are served, clockwise first; and where the piece was asked to
    /// move down and could not, the lock delay decides.
    pub fn input(&mut self, now: u64, input: &Input, supply: &Supply)
        requires
            old(self).wf(),
            old(self)@.can_tick(),
            old(self).timing.not_after(now),
            supply.wf(),
        ensures
            final(self)@ == old(self)@.played(now, *input, supply@),
            final(self).wf(),
            final(self).timing.not_after(now),
    {
        let ghost start = self@;
        let (dx, falls) = self.timing.sample(now, input);
        let ghost sampled = GameState { timing: start.timing.sampled(now, *input), ..start };
        assert(self@ == sampled);
        self.serve_actions(input, supply);
        let stuck = self.move_tetromino(dx, falls);
        self.serve_rotations(input, now);
        if stuck {
            self.debounce_lock(now, supply);
        }
    }

    /// One tick at time `now`, where a bag that runs empty is refilled from
    /// `supply`. A pause request toggles the pause. A paused run does not
    /// change otherwise; a run that is not paused plays the tick and brings
    /// its ghost up to date.
    pub fn step(&mut self, now: u64, input: &Input, supply: &Supply)
        requires
            old(self).wf(),
            old(self)@.can_tick(),
            old(self).timing.not_after(now),
            supply.wf(),
        ensures
            final(self)@ == old(self)@.tick(now, *input, supply@),
            final(self).wf(),
            final(self).timing.not_after(now),
    {
        if input.pause_pressed {
            self.paused = !self.paused;
        }
        if self.paused {
            return ;
        }
        self.input(now, input, supply);
        self.update_phantom();
    }

    /// One tick at time `now`, where a bag that runs empty is refilled with
    /// the set that the shuffle gives for the seed `now`.
    pub fn run(&mut self, now: u64, input: &Input)
        requires
            old(self).wf(),
            old(self)@.can_tick(),
            old(self).timing.not_after(now),
        ensures
            final(self)@ == old(self)@.tick(now, *input, shuffle_of(all_ids(), now)),
            final(self).wf(),
            final(self).timing.not_after(now),
    {
        self.step(now, input, &Supply::Seeded(now));
    }
}

} // verus!
