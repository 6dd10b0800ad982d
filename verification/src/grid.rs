use vstd::prelude::*;

use crate::global::{
    color_of, lemma_mask_not_empty, BOARD_COLOR, BOARD_HEIGHT, BOARD_WIDTH,
    PIECE_COUNT, SHAPE_COLORS, TETROMINO_SPAWN_POS,
};
use crate::tetromino::Tetromino;

verus! {

/// The playfield: `BOARD_HEIGHT` rows of `BOARD_WIDTH` cells, row 0 at the top.
/// A cell holds `BOARD_COLOR` while it is empty and the colour of the piece
/// that was locked into it otherwise.
#[derive(Clone, Debug, PartialEq, Eq)]
pub struct Grid {
    pub cells: Vec<Vec<(u8, u8, u8)>>,
}

impl View for Grid {
    type V = Seq<Seq<(u8, u8, u8)>>;

    open spec fn view(&self) -> Seq<Seq<(u8, u8, u8)>> {
        Seq::new(self.cells@.len(), |row: int| self.cells@[row]@)
    }
}

/// A colour that a cell may hold: the empty colour or the colour of an identity.
pub open spec fn is_tag(color: (u8, u8, u8)) -> bool {
    color == BOARD_COLOR || exists|id: int| 0 <= id < PIECE_COUNT && color == #[trigger] color_of(id)
}

/// `grid` has the size of the playfield.
pub open spec fn is_grid(grid: Seq<Seq<(u8, u8, u8)>>) -> bool {
    &&& grid.len() == BOARD_HEIGHT
    &&& forall|row: int| 0 <= row < grid.len() ==> (#[trigger] grid[row]).len() == BOARD_WIDTH
}

/// A row without a cell in it that holds a block.
pub open spec fn empty_row() -> Seq<(u8, u8, u8)> {
    Seq::new(BOARD_WIDTH as nat, |col: int| BOARD_COLOR)
}

/// The playfield at the start of a run.
pub open spec fn empty_grid() -> Seq<Seq<(u8, u8, u8)>> {
    Seq::new(BOARD_HEIGHT as nat, |row: int| empty_row())
}

/// Whether a block may not be at column `col` of row `row`: the cell lies
/// beside the playfield or below its floor, or it is a visible cell that holds
/// a block already. Cells above the visible rows hold nothing.
pub open spec fn cell_blocked(grid: Seq<Seq<(u8, u8, u8)>>, col: int, row: int) -> bool {
    ||| col < 0
    ||| col >= BOARD_WIDTH
    ||| row >= BOARD_HEIGHT
    ||| (row >= 0 && grid[row][col] != BOARD_COLOR)
}

/// Whether `piece`, displaced by (`dx`, `dy`), is blocked: one of its cells
/// would leave the playfield sideways or through the floor, or would overlap a
/// block in a visible row.
pub open spec fn blocked(grid: Seq<Seq<(u8, u8, u8)>>, piece: Tetromino, dx: int, dy: int) -> bool {
    exists|row: int, col: int|
        #[trigger] piece.filled(row, col) && cell_blocked(
            grid,
            piece.pos.0 + col + dx,
            piece.pos.1 + row + dy,
        )
}

/// Whether every cell of `piece` lies in a column of the playfield and above
/// its floor.
pub open spec fn in_bounds(piece: Tetromino) -> bool {
    forall|row: int, col: int| #[trigger]
        piece.filled(row, col) ==> {
            &&& 0 <= piece.pos.0 + col < BOARD_WIDTH
            &&& piece.pos.1 + row < BOARD_HEIGHT
        }
}

/// Whether a cell of `piece` lies in the topmost visible row or above it.
pub open spec fn tops_out(piece: Tetromino) -> bool {
    exists|row: int, col: int| #[trigger] piece.filled(row, col) && piece.pos.1 + row <= 0
}

/// `grid` with the cells of `piece` set to the colour of `piece`.
pub open spec fn stamped(grid: Seq<Seq<(u8, u8, u8)>>, piece: Tetromino) -> Seq<Seq<(u8, u8, u8)>> {
    Seq::new(
        grid.len(),
        |row: int|
            Seq::new(
                grid[row].len(),
                |col: int|
                    if piece.covers(col, row) {
                        piece.color
                    } else {
                        grid[row][col]
                    },
            ),
    )
}

/// `grid` with those cells of `piece` set that are among the first `k` cells of
/// its 4x4 box, counted row by row.
spec fn stamped_first(grid: Seq<Seq<(u8, u8, u8)>>, piece: Tetromino, k: int) -> Seq<
    Seq<(u8, u8, u8)>,
> {
    Seq::new(
        grid.len(),
        |row: int|
            Seq::new(
                grid[row].len(),
                |col: int|
                    if piece.covers(col, row) && 4 * (row - piece.pos.1) + (col - piece.pos.0) < k {
                        piece.color
                    } else {
                        grid[row][col]
                    },
            ),
    )
}

/// A row is full when every cell of it holds a block.
pub open spec fn row_full(row: Seq<(u8, u8, u8)>) -> bool {
    forall|col: int| 0 <= col < row.len() ==> #[trigger] row[col] != BOARD_COLOR
}

/// No row of `grid` is full.
pub open spec fn settled(grid: Seq<Seq<(u8, u8, u8)>>) -> bool {
    forall|row: int| 0 <= row < grid.len() ==> !row_full(#[trigger] grid[row])
}

/// The number of full rows of `grid`.
pub open spec fn full_rows(grid: Seq<Seq<(u8, u8, u8)>>) -> nat
    decreases grid.len(),
{
    if grid.len() == 0 {
        0
    } else {
        full_rows(grid.drop_last()) + if row_full(grid.last()) {
            1nat
        } else {
            0nat
        }
    }
}

/// The rows of `grid` that are not full, in their order.
pub open spec fn kept_rows(grid: Seq<Seq<(u8, u8, u8)>>) -> Seq<Seq<(u8, u8, u8)>>
    decreases grid.len(),
{
    if grid.len() == 0 {
        Seq::empty()
    } else if row_full(grid.last()) {
        kept_rows(grid.drop_last())
    } else {
        kept_rows(grid.drop_last()).push(grid.last())
    }
}

/// `n` empty rows.
pub open spec fn empty_rows(n: nat) -> Seq<Seq<(u8, u8, u8)>> {
    Seq::new(n, |row: int| empty_row())
}

/// `grid` after a line clear: the full rows are gone, the other rows keep their
/// order, and as many empty rows as were removed stand on top.
pub open spec fn cleared(grid: Seq<Seq<(u8, u8, u8)>>) -> Seq<Seq<(u8, u8, u8)>> {
    empty_rows(full_rows(grid)) + kept_rows(grid)
}

/// The rows that a line clear keeps are as many as the rows that are not full,
/// each of them is a row of the grid, and none of them is full.
pub proof fn lemma_kept_rows(grid: Seq<Seq<(u8, u8, u8)>>)
    ensures
        kept_rows(grid).len() + full_rows(grid) == grid.len(),
        forall|i: int|
            0 <= i < kept_rows(grid).len() ==> !row_full(#[trigger] kept_rows(grid)[i])
                && grid.contains(kept_rows(grid)[i]),
    decreases grid.len(),
{
    if grid.len() > 0 {
        let front = grid.drop_last();
        lemma_kept_rows(front);
        assert forall|i: int| 0 <= i < kept_rows(grid).len() implies !row_full(
            #[trigger] kept_rows(grid)[i],
        ) && grid.contains(kept_rows(grid)[i]) by {
            if i < kept_rows(front).len() {
                let j = choose|j: int| 0 <= j < front.len() && front[j] == kept_rows(front)[i];
                assert(grid[j] == kept_rows(grid)[i]);
            } else {
                assert(grid[grid.len() - 1] == kept_rows(grid)[i]);
            }
        }
    }
}

/// The highest row that the anchor of a piece in play reaches: a piece enters
/// three rows below it, and a kick lifts only a piece that touches a visible row.
pub const TOP_ROW: i32 = -5;

/// Whether `piece` is where a piece in play can be: inside the walls, above
/// the floor, and with its anchor at `TOP_ROW` or below.
pub open spec fn in_play(piece: Tetromino) -> bool {
    in_bounds(piece) && piece.pos.1 >= TOP_ROW
}

/// Whether `piece` comes to rest after falling `k` rows: it can fall by each
/// of the rows up to `k`, and is blocked one row further down.
pub open spec fn is_landing(grid: Seq<Seq<(u8, u8, u8)>>, piece: Tetromino, k: int) -> bool {
    &&& k >= 0
    &&& blocked(grid, piece, 0, k + 1)
    &&& forall|j: int| 0 < j <= k ==> !#[trigger] blocked(grid, piece, 0, j)
}

/// The number of rows that `piece` falls until it comes to rest.
pub open spec fn drop_rows(grid: Seq<Seq<(u8, u8, u8)>>, piece: Tetromino) -> int {
    choose|k: int| is_landing(grid, piece, k)
}

/// The ghost of `piece`: the piece where it comes to rest when it is dropped.
pub open spec fn landed(grid: Seq<Seq<(u8, u8, u8)>>, piece: Tetromino) -> Tetromino {
    piece.shifted(0, drop_rows(grid, piece))
}

/// A piece comes to rest after one number of rows only.
pub proof fn lemma_landing_unique(grid: Seq<Seq<(u8, u8, u8)>>, piece: Tetromino, k: int)
    requires
        is_landing(grid, piece, k),
    ensures
        drop_rows(grid, piece) == k,
{
    let other = drop_rows(grid, piece);
    assert(is_landing(grid, piece, other));
    if other < k {
        assert(!blocked(grid, piece, 0, other + 1));
    } else if other > k {
        assert(!blocked(grid, piece, 0, k + 1));
    }
}

/// A piece that is not blocked at an offset lies, moved by that offset,
/// inside the walls and above the floor, and not lower than the lowest row.
pub proof fn lemma_unblocked_in_bounds(
    grid: Seq<Seq<(u8, u8, u8)>>,
    piece: Tetromino,
    dx: int,
    dy: int,
)
    requires
        piece.wf(),
        !blocked(grid, piece, dx, dy),
        i32::MIN <= piece.pos.0 + dx <= i32::MAX,
        i32::MIN <= piece.pos.1 + dy <= i32::MAX,
    ensures
        in_bounds(piece.shifted(dx, dy)),
        -3 <= piece.pos.0 + dx <= BOARD_WIDTH - 1,
        piece.pos.1 + dy <= BOARD_HEIGHT - 2,
{
    let moved = piece.shifted(dx, dy);
    assert forall|row: int, col: int| #[trigger] moved.filled(row, col) implies 0 <= moved.pos.0
        + col < BOARD_WIDTH && moved.pos.1 + row < BOARD_HEIGHT by {
        assert(piece.filled(row, col));
    }
    lemma_mask_not_empty(piece.id as int, piece.rotation as int);
    if piece.filled(1, 2) {
    } else {
        assert(piece.filled(2, 1));
    }
}

/// If every full row of `grid` lies in the rows from `lo` up to, not
/// including, `hi`, there are at most `hi - lo` full rows.
pub proof fn lemma_full_rows_within(grid: Seq<Seq<(u8, u8, u8)>>, lo: int, hi: int)
    requires
        lo <= hi,
        forall|row: int| 0 <= row < grid.len() && row_full(#[trigger] grid[row]) ==> lo <= row < hi,
    ensures
        full_rows(grid) <= hi - lo,
        grid.len() <= lo ==> full_rows(grid) == 0,
        lo <= grid.len() <= hi ==> full_rows(grid) <= grid.len() - lo,
    decreases grid.len(),
{
    if grid.len() > 0 {
        let front = grid.drop_last();
        assert forall|row: int| 0 <= row < front.len() && row_full(#[trigger] front[row]) implies lo
            <= row < hi by {
            assert(front[row] == grid[row]);
        }
        lemma_full_rows_within(front, lo, hi);
        assert(grid.last() == grid[grid.len() - 1]);
    }
}

/// Locking a piece into a grid without full rows fills at most four rows: a
/// piece spans four rows, and a row that it does not touch stays as it was.
pub proof fn lemma_stamped_full_rows(grid: Seq<Seq<(u8, u8, u8)>>, piece: Tetromino)
    requires
        settled(grid),
    ensures
        full_rows(stamped(grid, piece)) <= 4,
{
    let after = stamped(grid, piece);
    assert forall|row: int| 0 <= row < after.len() && row_full(#[trigger] after[row]) implies piece.pos.1
        <= row < piece.pos.1 + 4 by {
        if !(piece.pos.1 <= row < piece.pos.1 + 4) {
            assert(after[row] =~= grid[row]);
            assert(!row_full(grid[row]));
        }
    }
    lemma_full_rows_within(after, piece.pos.1 as int, piece.pos.1 + 4);
}

/// What a line clear keeps of the first `n` rows when row `full` is the only
/// full row.
proof fn lemma_kept_rows_one_full(grid: Seq<Seq<(u8, u8, u8)>>, full: int, n: int)
    requires
        0 <= full < grid.len(),
        0 <= n <= grid.len(),
        forall|row: int| 0 <= row < grid.len() ==> (row_full(#[trigger] grid[row]) <==> row == full),
    ensures
        n <= full ==> kept_rows(grid.take(n)) == grid.take(n) && full_rows(grid.take(n)) == 0,
        n > full ==> kept_rows(grid.take(n)) == grid.take(n).remove(full) && full_rows(
            grid.take(n),
        ) == 1,
    decreases n,
{
    if n > 0 {
        lemma_kept_rows_one_full(grid, full, n - 1);
        assert(grid.take(n).drop_last() =~= grid.take(n - 1));
        assert(grid.take(n).last() == grid[n - 1]);
        if n - 1 < full {
            assert(grid.take(n - 1).push(grid[n - 1]) =~= grid.take(n));
        } else if n - 1 == full {
            assert(grid.take(n - 1) =~= grid.take(n).remove(full));
        } else {
            assert(grid.take(n - 1).remove(full).push(grid[n - 1]) =~= grid.take(n).remove(full));
        }
    } else {
        assert(grid.take(0) =~= Seq::empty());
    }
}

/// Line clear of a single row. Where row `full` is the only full row of a
/// grid, clearing makes that row disappear: row 0 becomes an empty row, each
/// row above `full` moves down by exactly one, and the rows below `full` stay
/// where they are. One row is counted as cleared.
pub proof fn lemma_clear_one_row(grid: Seq<Seq<(u8, u8, u8)>>, full: int)
    requires
        0 <= full < grid.len(),
        forall|row: int| 0 <= row < grid.len() ==> (row_full(#[trigger] grid[row]) <==> row == full),
    ensures
        full_rows(grid) == 1,
        cleared(grid).len() == grid.len(),
        cleared(grid)[0] == empty_row(),
        forall|row: int| 0 < row <= full ==> #[trigger] cleared(grid)[row] == grid[row - 1],
        forall|row: int| full < row < grid.len() ==> #[trigger] cleared(grid)[row] == grid[row],
{
    lemma_kept_rows_one_full(grid, full, grid.len() as int);
    assert(grid.take(grid.len() as int) =~= grid);
    assert(cleared(grid) =~= seq![empty_row()] + grid.remove(full));
}

/// A piece at the spawn anchor is in play, whatever its identity and rotation
/// state.
pub proof fn lemma_spawn_in_play(piece: Tetromino)
    ensures
        in_play(piece.moved_to(TETROMINO_SPAWN_POS)),
{
}

/// A kick lifts only a piece that touches a visible row. Where a piece is
/// blocked at an offset that moves it sideways only, and free at an offset that
/// moves it sideways by as much and lifts it, one of its cells was stopped by
/// the floor or by a block, so its anchor is no more than three rows above the
/// visible rows.
pub proof fn lemma_kick_up(grid: Seq<Seq<(u8, u8, u8)>>, piece: Tetromino, dx: int, dy: int)
    requires
        blocked(grid, piece, dx, 0),
        !blocked(grid, piece, dx, dy),
    ensures
        piece.pos.1 >= -3,
{
    let (row, col) = choose|row: int, col: int|
        #[trigger] piece.filled(row, col) && cell_blocked(
            grid,
            piece.pos.0 + col + dx,
            piece.pos.1 + row + 0,
        );
    assert(!cell_blocked(grid, piece.pos.0 + col + dx, piece.pos.1 + row + dy));
}

/// The empty playfield has no full row.
pub proof fn lemma_empty_grid_settled()
    ensures
        settled(empty_grid()),
{
    assert forall|row: int| 0 <= row < empty_grid().len() implies !row_full(
        #[trigger] empty_grid()[row],
    ) by {
        assert(empty_grid()[row][0] == BOARD_COLOR);
    }
}

/// The anchor of a piece inside the walls and above the floor is at most
/// three columns left of the playfield, inside its width, and above its floor.
pub proof fn lemma_in_bounds_range(piece: Tetromino)
    requires
        piece.wf(),
        in_bounds(piece),
    ensures
        -3 <= piece.pos.0 <= BOARD_WIDTH - 1,
        piece.pos.1 <= BOARD_HEIGHT - 2,
{
    lemma_mask_not_empty(piece.id as int, piece.rotation as int);
    if piece.filled(1, 2) {
    } else {
        assert(piece.filled(2, 1));
    }
}

/// Compares two colours.
pub fn same_color(a: (u8, u8, u8), b: (u8, u8, u8)) -> (same: bool)
    ensures
        same == (a == b),
{
    a.0 == b.0 && a.1 == b.1 && a.2 == b.2
}

/// Whether a cell may hold `color`: whether it is the empty colour or the
/// colour of an identity.
pub fn is_tag_color(color: (u8, u8, u8)) -> (ok: bool)
    ensures
        ok == is_tag(color),
{
    if same_color(color, BOARD_COLOR) {
        return true;
    }
    let mut id: usize = 0;
    while id < PIECE_COUNT
        invariant
            id <= PIECE_COUNT,
            color != BOARD_COLOR,
            forall|k: int| 0 <= k < id ==> color != #[trigger] color_of(k),
        decreases PIECE_COUNT - id,
    {
        if same_color(color, SHAPE_COLORS[id]) {
            assert(color == color_of(id as int));
            return true;
        }
        id += 1;
    }
    false
}

/// Whether `piece` is where a piece in play can be.
pub fn is_in_play(piece: &Tetromino) -> (ok: bool)
    requires
        piece.wf(),
    ensures
        ok == in_play(*piece),
{
    if piece.pos.1 < TOP_ROW {
        return false;
    }
    let mask = piece.shape();
    let mut k: usize = 0;
    while k < 16
        invariant
            k <= 16,
            piece.pos.1 >= TOP_ROW,
            forall|r: int, c: int|
                0 <= r < 4 && 0 <= c < 4 ==> #[trigger] mask[r][c] == piece.filled(r, c),
            forall|r: int, c: int|
                4 * r + c < k && #[trigger] piece.filled(r, c) ==> 0 <= piece.pos.0 + c
                    < BOARD_WIDTH && piece.pos.1 + r < BOARD_HEIGHT,
        decreases 16 - k,
    {
        let row = k / 4;
        let col = k % 4;
        if mask[row][col] {
            assert(piece.filled(row as int, col as int));
            let at_col: i64 = piece.pos.0 as i64 + col as i64;
            let at_row: i64 = piece.pos.1 as i64 + row as i64;
            if at_col < 0 || at_col >= BOARD_WIDTH as i64 || at_row >= BOARD_HEIGHT as i64 {
                return false;
            }
        }
        k += 1;
    }
    true
}

impl Grid {
    /// The grid has the size of the playfield and holds nothing but tags.
    pub open spec fn wf(&self) -> bool {
        &&& is_grid(self@)
        &&& forall|row: int, col: int|
            0 <= row < BOARD_HEIGHT && 0 <= col < BOARD_WIDTH ==> is_tag(#[trigger] self@[row][col])
    }

    /// The empty playfield.
    pub fn new() -> (grid: Grid)
        ensures
            grid@ == empty_grid(),
            grid.wf(),
    {
        let mut cells: Vec<Vec<(u8, u8, u8)>> = Vec::new();
        let mut row: usize = 0;
        while row < BOARD_HEIGHT
            invariant
                row <= BOARD_HEIGHT,
                cells@.len() == row,
                forall|r: int| 0 <= r < row ==> (#[trigger] cells@[r])@ == empty_row(),
            decreases BOARD_HEIGHT - row,
        {
            let mut line: Vec<(u8, u8, u8)> = Vec::new();
            let mut col: usize = 0;
            while col < BOARD_WIDTH
                invariant
                    col <= BOARD_WIDTH,
                    line@.len() == col,
                    forall|c: int| 0 <= c < col ==> #[trigger] line@[c] == BOARD_COLOR,
                decreases BOARD_WIDTH - col,
            {
                line.push(BOARD_COLOR);
                col += 1;
            }
            assert(line@ =~= empty_row());
            cells.push(line);
            row += 1;
        }
        let grid = Grid { cells };
        assert(grid@ =~= empty_grid());
        grid
    }

    /// The colour in column `col` of row `row`.
    pub fn get(&self, row: usize, col: usize) -> (color: (u8, u8, u8))
        requires
            self.wf(),
            row < BOARD_HEIGHT,
            col < BOARD_WIDTH,
        ensures
            color == self@[row as int][col as int],
    {
        assert(self@[row as int] == self.cells@[row as int]@);
        self.cells[row][col]
    }

    /// Writes `color` into column `col` of row `row`.
    pub fn set(&mut self, row: usize, col: usize, color: (u8, u8, u8))
        requires
            old(self).wf(),
            row < BOARD_HEIGHT,
            col < BOARD_WIDTH,
            is_tag(color),
        ensures
            final(self)@ == old(self)@.update(
                row as int,
                old(self)@[row as int].update(col as int, color),
            ),
            final(self).wf(),
    {
        let ghost before = self@;
        assert(before[row as int] == self.cells@[row as int]@);
        self.cells[row][col] = color;
        assert(self@ =~~= before.update(row as int, before[row as int].update(col as int, color))) by {
            assert forall|r: int| 0 <= r < BOARD_HEIGHT implies #[trigger] self@[r] =~= before.update(
                row as int,
                before[row as int].update(col as int, color),
            )[r] by {
                assert(before[r] == old(self).cells@[r]@);
            }
        }
        assert forall|r: int, c: int|
            0 <= r < BOARD_HEIGHT && 0 <= c < BOARD_WIDTH implies is_tag(#[trigger] self@[r][c]) by {
            assert(is_tag(before[r][c]));
        }
    }

    /// The collision resolver: whether `piece`, displaced by (`dx`, `dy`), is
    /// blocked by the walls, the floor or the blocks of this grid.
    pub fn is_blocked(&self, piece: &Tetromino, dx: i32, dy: i32) -> (hit: bool)
        requires
            self.wf(),
            piece.wf(),
        ensures
            hit == blocked(self@, *piece, dx as int, dy as int),
    {
        let mask = piece.shape();
        let mut row: usize = 0;
        while row < 4
            invariant
                row <= 4,
                self.wf(),
                piece.wf(),
                forall|r: int, c: int|
                    0 <= r < 4 && 0 <= c < 4 ==> #[trigger] mask[r][c] == piece.filled(r, c),
                forall|r: int, c: int|
                    0 <= r < row && #[trigger] piece.filled(r, c) ==> !cell_blocked(
                        self@,
                        piece.pos.0 + c + dx,
                        piece.pos.1 + r + dy,
                    ),
            decreases 4 - row,
        {
            let mut col: usize = 0;
            while col < 4
                invariant
                    row < 4,
                    col <= 4,
                    self.wf(),
                    piece.wf(),
                    forall|r: int, c: int|
                        0 <= r < 4 && 0 <= c < 4 ==> #[trigger] mask[r][c] == piece.filled(r, c),
                    forall|r: int, c: int|
                        (0 <= r < row || (r == row && c < col)) && #[trigger] piece.filled(r, c)
                            ==> !cell_blocked(
                            self@,
                            piece.pos.0 + c + dx,
                            piece.pos.1 + r + dy,
                        ),
                decreases 4 - col,
            {
                if mask[row][col] {
                    let at_col: i64 = piece.pos.0 as i64 + col as i64 + dx as i64;
                    let at_row: i64 = piece.pos.1 as i64 + row as i64 + dy as i64;
                    assert(piece.filled(row as int, col as int));
                    if at_col < 0 || at_col >= BOARD_WIDTH as i64 || at_row >= BOARD_HEIGHT as i64 {
                        return true;
                    }
                    assert(at_row >= 0 ==> self@[at_row as int] == self.cells@[at_row as int]@);
                    if at_row >= 0 && !same_color(
                        self.cells[at_row as usize][at_col as usize],
                        BOARD_COLOR,
                    ) {
                        return true;
                    }
                }
                col += 1;
            }
            row += 1;
        }
        false
    }
    /// Locks `piece` into the grid: each of its cells takes its colour.
    pub fn place(&mut self, piece: &Tetromino)
        requires
            old(self).wf(),
            piece.wf(),
            in_bounds(*piece),
            !tops_out(*piece),
        ensures
            final(self)@ == stamped(old(self)@, *piece),
            final(self).wf(),
    {
        let mask = piece.shape();
        let ghost before = self@;
        let mut k: usize = 0;
        assert(self@ =~~= stamped_first(before, *piece, 0));
        while k < 16
            invariant
                k <= 16,
                piece.wf(),
                in_bounds(*piece),
                !tops_out(*piece),
                is_grid(before),
                is_grid(self@),
                forall|r: int, c: int|
                    0 <= r < 4 && 0 <= c < 4 ==> #[trigger] mask[r][c] == piece.filled(r, c),
                self@ == stamped_first(before, *piece, k as int),
            decreases 16 - k,
        {
            let row = k / 4;
            let col = k % 4;
            let ghost cur = self@;
            if mask[row][col] {
                assert(piece.filled(row as int, col as int));
                let at_col = (piece.pos.0 + col as i32) as usize;
                let at_row = (piece.pos.1 + row as i32) as usize;
                assert(cur[at_row as int] == self.cells@[at_row as int]@);
                self.cells[at_row][at_col] = piece.color;
                assert(self@ =~~= stamped_first(before, *piece, k + 1)) by {
                    assert forall|r: int| 0 <= r < BOARD_HEIGHT implies #[trigger] self@[r]
                        =~= stamped_first(before, *piece, k + 1)[r] by {
                        assert(cur[r] == stamped_first(before, *piece, k as int)[r]);
                        assert forall|c: int| 0 <= c < BOARD_WIDTH implies self@[r][c]
                            == stamped_first(before, *piece, k + 1)[r][c] by {
                            assert(cur[r][c] == stamped_first(before, *piece, k as int)[r][c]);
                        }
                    }
                }
            } else {
                assert(self@ =~~= stamped_first(before, *piece, k + 1)) by {
                    assert forall|r: int| 0 <= r < BOARD_HEIGHT implies #[trigger] self@[r]
                        =~= stamped_first(before, *piece, k + 1)[r] by {
                        assert(cur[r] == stamped_first(before, *piece, k as int)[r]);
                    }
                }
            }
            k += 1;
        }
        assert(stamped_first(before, *piece, 16) =~~= stamped(before, *piece));
        assert forall|row: int, col: int|
            0 <= row < BOARD_HEIGHT && 0 <= col < BOARD_WIDTH implies is_tag(
            #[trigger] self@[row][col],
        ) by {
            assert(is_tag(before[row][col]));
            assert(piece.color == color_of(piece.id as int));
        }
    }

    /// Whether every cell of row `row` holds a block.
    pub fn is_row_full(&self, row: usize) -> (full: bool)
        requires
            row < self@.len(),
        ensures
            full == row_full(self@[row as int]),
    {
        let line = &self.cells[row];
        assert(line@ == self@[row as int]);
        let mut col: usize = 0;
        while col < line.len()
            invariant
                col <= line@.len(),
                line@ == self@[row as int],
                forall|c: int| 0 <= c < col ==> #[trigger] line@[c] != BOARD_COLOR,
            decreases line@.len() - col,
        {
            if same_color(line[col], BOARD_COLOR) {
                return false;
            }
            col += 1;
        }
        true
    }

    /// Clears the full rows: removes each of them, so that the rows above it
    /// move down by one, and puts an empty row on top in its place. Returns how
    /// many rows were cleared.
    pub fn clear_lines(&mut self) -> (count: usize)
        requires
            old(self).wf(),
        ensures
            final(self)@ == cleared(old(self)@),
            count == full_rows(old(self)@),
            final(self).wf(),
            settled(final(self)@),
    {
        let ghost before = self@;
        let mut count: usize = 0;
        let mut row: usize = 0;
        assert(before.take(0) =~= Seq::empty());
        assert(self@ =~= empty_rows(0) + kept_rows(before.take(0)) + before.skip(0));
        while row < BOARD_HEIGHT
            invariant
                row <= BOARD_HEIGHT,
                before.len() == BOARD_HEIGHT,
                self@.len() == BOARD_HEIGHT,
                count == full_rows(before.take(row as int)),
                count <= row,
                self@ == empty_rows(count as nat) + kept_rows(before.take(row as int))
                    + before.skip(row as int),
            decreases BOARD_HEIGHT - row,
        {
            let ghost cur = self@;
            let ghost kept = kept_rows(before.take(row as int));
            proof {
                lemma_kept_rows(before.take(row as int));
                assert(before.take(row + 1).drop_last() =~= before.take(row as int));
                assert(before.take(row + 1).last() == before[row as int]);
                assert(cur[row as int] == before[row as int]);
            }
            if self.is_row_full(row) {
                self.cells.remove(row);
                let mut line: Vec<(u8, u8, u8)> = Vec::new();
                let mut col: usize = 0;
                while col < BOARD_WIDTH
                    invariant
                        col <= BOARD_WIDTH,
                        line@.len() == col,
                        forall|c: int| 0 <= c < col ==> #[trigger] line@[c] == BOARD_COLOR,
                    decreases BOARD_WIDTH - col,
                {
                    line.push(BOARD_COLOR);
                    col += 1;
                }
                assert(line@ =~= empty_row());
                self.cells.insert(0, line);
                count += 1;
                assert(self@ =~= empty_rows(count as nat) + kept + before.skip(row + 1)) by {
                    assert(self@ =~= seq![empty_row()] + cur.remove(row as int));
                }
            } else {
                assert(self@ =~= empty_rows(count as nat) + kept.push(before[row as int])
                    + before.skip(row + 1));
            }
            row += 1;
        }
        proof {
            assert(before.take(BOARD_HEIGHT as int) =~= before);
            assert(self@ =~= cleared(before));
            lemma_kept_rows(before);
            assert forall|r: int| 0 <= r < BOARD_HEIGHT implies (#[trigger] self@[r]).len()
                == BOARD_WIDTH && !row_full(self@[r]) && (forall|c: int|
                0 <= c < BOARD_WIDTH ==> is_tag(#[trigger] self@[r][c])) by {
                if r < count {
                    assert(self@[r] == empty_row());
                    assert(self@[r][0] == BOARD_COLOR);
                } else {
                    let line = kept_rows(before)[r - count];
                    assert(self@[r] == line);
                    let j = choose|j: int| 0 <= j < before.len() && before[j] == line;
                    assert forall|c: int| 0 <= c < BOARD_WIDTH implies is_tag(
                        #[trigger] self@[r][c],
                    ) by {
                        assert(is_tag(before[j][c]));
                    }
                }
            }
        }
        count
    }
    /// Drops `piece` as far as the collision resolver allows and returns it
    /// where it comes to rest: the ghost of the piece.
    pub fn landing(&self, piece: &Tetromino) -> (ghost_piece: Tetromino)
        requires
            self.wf(),
            piece.wf(),
            in_play(*piece),
        ensures
            ghost_piece == landed(self@, *piece),
            is_landing(self@, *piece, drop_rows(self@, *piece)),
            ghost_piece.wf(),
            in_play(ghost_piece),
    {
        proof {
            lemma_mask_not_empty(piece.id as int, piece.rotation as int);
            assert(piece.filled(1, 2) || piece.filled(2, 1));
        }
        let mut k: i32 = 0;
        while !self.is_blocked(piece, 0, k + 1)
            invariant
                self.wf(),
                piece.wf(),
                in_play(*piece),
                0 <= k,
                piece.pos.1 + k < BOARD_HEIGHT,
                piece.filled(1, 2) || piece.filled(2, 1),
                forall|j: int| 0 < j <= k ==> !#[trigger] blocked(self@, *piece, 0, j),
            decreases BOARD_HEIGHT - piece.pos.1 - k,
        {
            k += 1;
        }
        proof {
            lemma_landing_unique(self@, *piece, k as int);
            if k > 0 {
                lemma_unblocked_in_bounds(self@, *piece, 0, k as int);
            } else {
                assert forall|row: int, col: int| #[trigger]
                    piece.shifted(0, 0).filled(row, col) implies 0 <= piece.pos.0 + col
                    < BOARD_WIDTH && piece.pos.1 + row < BOARD_HEIGHT by {
                    assert(piece.filled(row, col));
                }
            }
        }
        Tetromino {
            id: piece.id,
            rotation: piece.rotation,
            pos: (piece.pos.0, piece.pos.1 + k),
            color: piece.color,
        }
    }
    /// Whether the grid has the size of the playfield and holds nothing but tags.
    pub fn is_wf(&self) -> (ok: bool)
        ensures
            ok == self.wf(),
    {
        if self.cells.len() != BOARD_HEIGHT {
            return false;
        }
        let mut row: usize = 0;
        while row < BOARD_HEIGHT
            invariant
                row <= BOARD_HEIGHT,
                self@.len() == BOARD_HEIGHT,
                forall|r: int| 0 <= r < row ==> (#[trigger] self@[r]).len() == BOARD_WIDTH,
                forall|r: int, c: int|
                    0 <= r < row && 0 <= c < BOARD_WIDTH ==> is_tag(#[trigger] self@[r][c]),
            decreases BOARD_HEIGHT - row,
        {
            let line = &self.cells[row];
            assert(line@ == self@[row as int]);
            if line.len() != BOARD_WIDTH {
                return false;
            }
            let mut col: usize = 0;
            while col < BOARD_WIDTH
                invariant
                    col <= BOARD_WIDTH,
                    row < BOARD_HEIGHT,
                    self@.len() == BOARD_HEIGHT,
                    line@.len() == BOARD_WIDTH,
                    line@ == self@[row as int],
                    forall|c: int| 0 <= c < col ==> is_tag(#[trigger] line@[c]),
                decreases BOARD_WIDTH - col,
            {
                if !is_tag_color(line[col]) {
                    assert(!is_tag(self@[row as int][col as int]));
                    return false;
                }
                col += 1;
            }
            row += 1;
        }
        true
    }

    /// Whether no row of the grid is full.
    pub fn is_settled(&self) -> (ok: bool)
        ensures
            ok == settled(self@),
    {
        let mut row: usize = 0;
        while row < self.cells.len()
            invariant
                row <= self@.len(),
                forall|r: int| 0 <= r < row ==> !row_full(#[trigger] self@[r]),
            decreases self@.len() - row,
        {
            if self.is_row_full(row) {
                return false;
            }
            row += 1;
        }
        true
    }
}

} // verus!
