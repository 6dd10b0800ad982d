use vstd::prelude::*;

verus! {

/// Number of columns of the playfield.
pub const BOARD_WIDTH: usize = 10;

/// Number of visible rows of the playfield.
pub const BOARD_HEIGHT: usize = 20;

/// Colour of a cell that holds no block.
pub const BOARD_COLOR: (u8, u8, u8) = (20, 20, 20);

/// Milliseconds between two honoured horizontal moves while a key is held.
pub const X_MOVE_DELAY: u64 = 120;

/// Milliseconds between two honoured soft-drop steps while the key is held.
pub const Y_MOVE_DELAY: u64 = 50;

/// Milliseconds between two gravity steps at the start of a run.
pub const GRAVITY_DELAY: u64 = 1000;

/// Milliseconds a grounded piece may still be moved before it locks.
pub const LOCK_DELAY: u64 = 200;

/// Number of piece identities.
pub const PIECE_COUNT: usize = 7;

/// Identity of the I piece, which has a kick table of its own.
pub const PIECE_I: usize = 0;

/// Identity of the O piece, whose rotation never displaces it.
pub const PIECE_O: usize = 3;

/// Anchor (column, row) at which a piece enters play: centred, above the visible rows.
pub const TETROMINO_SPAWN_POS: (i32, i32) = (3, -2);

/// Points for a lock that clears 0, 1, 2, 3 or 4 rows, before the level multiplier.
pub const SCORE_PER_LINE: [u32; 5] = [2, 100, 300, 500, 800];

/// Wall-kick trials of the J, L, S, T and Z pieces: for each (from, to) pair of
/// rotation states the five (dx, dy) offsets in the order in which they are tried.
pub const JLSTZ_KICKS: [((i32, i32), [(i32, i32); 5]); 8] = [
    ((0, 1), [(0, 0), (-1, 0), (-1, 1), (0, -2), (-1, -2)]),
    ((1, 0), [(0, 0), (1, 0), (1, -1), (0, 2), (1, 2)]),
    ((1, 2), [(0, 0), (1, 0), (1, -1), (0, 2), (1, 2)]),
    ((2, 1), [(0, 0), (-1, 0), (-1, 1), (0, -2), (-1, -2)]),
    ((2, 3), [(0, 0), (1, 0), (1, 1), (0, -2), (1, -2)]),
    ((3, 2), [(0, 0), (-1, 0), (-1, -1), (0, 2), (-1, 2)]),
    ((3, 0), [(0, 0), (-1, 0), (-1, -1), (0, 2), (-1, 2)]),
    ((0, 3), [(0, 0), (1, 0), (1, 1), (0, -2), (1, -2)]),
];

/// Wall-kick trials of the I piece, laid out as `JLSTZ_KICKS`.
pub const I_KICKS: [((i32, i32), [(i32, i32); 5]); 8] = [
    ((0, 1), [(0, 0), (-2, 0), (1, 0), (-2, -1), (1, 2)]),
    ((1, 0), [(0, 0), (2, 0), (-1, 0), (2, 1), (-1, -2)]),
    ((1, 2), [(0, 0), (-1, 0), (2, 0), (-1, 2), (2, -1)]),
    ((2, 1), [(0, 0), (1, 0), (-2, 0), (1, -2), (-2, 1)]),
    ((2, 3), [(0, 0), (2, 0), (-1, 0), (2, 1), (-1, -2)]),
    ((3, 2), [(0, 0), (-2, 0), (1, 0), (-2, -1), (1, 2)]),
    ((3, 0), [(0, 0), (1, 0), (-2, 0), (1, -2), (-2, 1)]),
    ((0, 3), [(0, 0), (-1, 0), (2, 0), (-1, 2), (2, -1)]),
];

/// The occupancy masks of the seven identities I, J, L, O, S, T, Z, indexed
/// `[identity][rotation][row][column]`. Every rotation state is written out, so
/// that turning a piece is a lookup and never a transformation of a mask.
pub const SHAPE_MASKS: [[[[bool; 4]; 4]; 4]; 7] = [
    // I
    [
        [
            [false, false, false, false],
            [true, true, true, true],
            [false, false, false, false],
            [false, false, false, false],
        ],
        [
            [false, false, true, false],
            [false, false, true, false],
            [false, false, true, false],
            [false, false, true, false],
        ],
        [
            [false, false, false, false],
            [false, false, false, false],
            [true, true, true, true],
            [false, false, false, false],
        ],
        [
            [false, true, false, false],
            [false, true, false, false],
            [false, true, false, false],
            [false, true, false, false],
        ],
    ],
    // J
    [
        [
            [false, false, false, false],
            [true, false, false, false],
            [true, true, true, false],
            [false, false, false, false],
        ],
        [
            [false, false, false, false],
            [false, true, true, false],
            [false, true, false, false],
            [false, true, false, false],
        ],
        [
            [false, false, false, false],
            [false, false, false, false],
            [true, true, true, false],
            [false, false, true, false],
        ],
        [
            [false, false, false, false],
            [false, true, false, false],
            [false, true, false, false],
            [true, true, false, false],
        ],
    ],
    // L
    [
        [
            [false, false, false, false],
            [false, false, true, false],
            [true, true, true, false],
            [false, false, false, false],
        ],
        [
            [false, false, false, false],
            [false, true, false, false],
            [false, true, false, false],
            [false, true, true, false],
        ],
        [
            [false, false, false, false],
            [true, true, true, false],
            [true, false, false, false],
            [false, false, false, false],
        ],
        [
            [false, false, false, false],
            [true, true, false, false],
            [false, true, false, false],
            [false, true, false, false],
        ],
    ],
    // O
    [
        [
            [false, false, false, false],
            [false, true, true, false],
            [false, true, true, false],
            [false, false, false, false],
        ],
        [
            [false, false, false, false],
            [false, true, true, false],
            [false, true, true, false],
            [false, false, false, false],
        ],
        [
            [false, false, false, false],
            [false, true, true, false],
            [false, true, true, false],
            [false, false, false, false],
        ],
        [
            [false, false, false, false],
            [false, true, true, false],
            [false, true, true, false],
            [false, false, false, false],
        ],
    ],
    // S
    [
        [
            [false, false, false, false],
            [false, true, true, false],
            [true, true, false, false],
            [false, false, false, false],
        ],
        [
            [false, false, false, false],
            [false, true, false, false],
            [false, true, true, false],
            [false, false, true, false],
        ],
        [
            [false, false, false, false],
            [false, false, false, false],
            [false, true, true, false],
            [true, true, false, false],
        ],
        [
            [false, false, false, false],
            [true, false, false, false],
            [true, true, false, false],
            [false, true, false, false],
        ],
    ],
    // T
    [
        [
            [false, false, false, false],
            [false, true, false, false],
            [true, true, true, false],
            [false, false, false, false],
        ],
        [
            [false, false, false, false],
            [false, true, false, false],
            [false, true, true, false],
            [false, true, false, false],
        ],
        [
            [false, false, false, false],
            [false, false, false, false],
            [true, true, true, false],
            [false, true, false, false],
        ],
        [
            [false, false, false, false],
            [false, true, false, false],
            [true, true, false, false],
            [false, true, false, false],
        ],
    ],
    // Z
    [
        [
            [false, false, false, false],
            [true, true, false, false],
            [false, true, true, false],
            [false, false, false, false],
        ],
        [
            [false, false, false, false],
            [false, false, true, false],
            [false, true, true, false],
            [false, true, false, false],
        ],
        [
            [false, false, false, false],
            [true, true, false, false],
            [false, true, true, false],
            [false, false, false, false],
        ],
        [
            [false, false, false, false],
            [false, true, false, false],
            [true, true, false, false],
            [true, false, false, false],
        ],
    ],
];

/// The display colour of each identity, in the order of `SHAPE_MASKS`.
pub const SHAPE_COLORS: [(u8, u8, u8); 7] = [
    (0, 190, 225),
    (60, 60, 230),
    (220, 150, 50),
    (240, 215, 0),
    (135, 220, 130),
    (110, 40, 230),
    (220, 60, 90),
];

/// One piece identity: its four rotation states, each a 4x4 occupancy mask
/// indexed `[rotation][row][column]`, and its display colour.
pub struct Template {
    pub orientations: [[[bool; 4]; 4]; 4],
    pub color: (u8, u8, u8),
}

/// Whether the mask of identity `id` in rotation state `rotation` covers the
/// cell at (`row`, `col`) of its 4x4 box.
pub open spec fn mask_at(id: int, rotation: int, row: int, col: int) -> bool {
    SHAPE_MASKS[id][rotation][row][col]
}

/// The display colour of identity `id`.
pub open spec fn color_of(id: int) -> (u8, u8, u8) {
    SHAPE_COLORS[id]
}

impl Template {
    /// The catalogue entry of identity `id`.
    pub fn of(id: usize) -> (template: Template)
        requires
            id < PIECE_COUNT,
        ensures
            template.color == color_of(id as int),
            forall|rotation: int, row: int, col: int|
                0 <= rotation < 4 && 0 <= row < 4 && 0 <= col < 4
                    ==> #[trigger] template.orientations[rotation][row][col]
                        == mask_at(id as int, rotation, row, col),
    {
        Template { orientations: SHAPE_MASKS[id], color: SHAPE_COLORS[id] }
    }
}

/// Looks one mask cell up in the catalogue.
pub fn shape_cell(id: usize, rotation: usize, row: usize, col: usize) -> (filled: bool)
    requires
        id < PIECE_COUNT,
        rotation < 4,
        row < 4,
        col < 4,
    ensures
        filled == mask_at(id as int, rotation as int, row as int, col as int),
{
    SHAPE_MASKS[id][rotation][row][col]
}

/// Looks the colour of an identity up in the catalogue.
pub fn shape_color(id: usize) -> (color: (u8, u8, u8))
    requires
        id < PIECE_COUNT,
    ensures
        color == color_of(id as int),
{
    SHAPE_COLORS[id]
}

/// Whether row `i` of a kick table is the one for the turn from rotation state
/// `from` to rotation state `to`.
pub open spec fn key_is(
    table: [((i32, i32), [(i32, i32); 5]); 8],
    i: int,
    from: int,
    to: int,
) -> bool {
    table[i].0.0 == from && table[i].0.1 == to
}

/// The first row of a kick table that is keyed by (`from`, `to`), if there is one.
pub open spec fn kick_row(table: [((i32, i32), [(i32, i32); 5]); 8], from: int, to: int) -> Option<
    int,
> {
    if key_is(table, 0, from, to) {
        Some(0)
    } else if key_is(table, 1, from, to) {
        Some(1)
    } else if key_is(table, 2, from, to) {
        Some(2)
    } else if key_is(table, 3, from, to) {
        Some(3)
    } else if key_is(table, 4, from, to) {
        Some(4)
    } else if key_is(table, 5, from, to) {
        Some(5)
    } else if key_is(table, 6, from, to) {
        Some(6)
    } else if key_is(table, 7, from, to) {
        Some(7)
    } else {
        None
    }
}

/// The offsets that a kick table lists for the turn from `from` to `to`, in
/// trial order; empty where the table has no such turn.
pub open spec fn table_trials(
    table: [((i32, i32), [(i32, i32); 5]); 8],
    from: int,
    to: int,
) -> Seq<(i32, i32)> {
    match kick_row(table, from, to) {
        Some(i) => table[i].1@,
        None => Seq::empty(),
    }
}

/// The offsets to try, in order, when the piece of identity `id` turns from
/// rotation state `from` to rotation state `to`: the I piece has a table of its
/// own, the O piece turns in place, every other piece uses the common table.
pub open spec fn kick_trials(id: int, from: int, to: int) -> Seq<(i32, i32)> {
    if id == PIECE_I {
        table_trials(I_KICKS, from, to)
    } else if id == PIECE_O {
        seq![(0i32, 0i32)]
    } else {
        table_trials(JLSTZ_KICKS, from, to)
    }
}

/// Searches a kick table for the turn from `from` to `to`.
pub fn find_kicks(table: &[((i32, i32), [(i32, i32); 5]); 8], from: usize, to: usize) -> (found:
    Option<[(i32, i32); 5]>)
    ensures
        match found {
            Some(offsets) => kick_row(*table, from as int, to as int) is Some
                && offsets@ == table_trials(*table, from as int, to as int),
            None => kick_row(*table, from as int, to as int) is None,
        },
{
    let mut i: usize = 0;
    while i < 8
        invariant
            i <= 8,
            forall|k: int| 0 <= k < i ==> !key_is(*table, k, from as int, to as int),
        decreases 8 - i,
    {
        let key = table[i].0;
        if key.0 >= 0 && key.1 >= 0 && key.0 as usize == from && key.1 as usize == to {
            return Some(table[i].1);
        }
        i += 1;
    }
    None
}

/// The kick trials of a piece for one turn, as `kick_trials` lists them.
pub fn kicks_for(id: usize, from: usize, to: usize) -> (trials: Vec<(i32, i32)>)
    ensures
        trials@ == kick_trials(id as int, from as int, to as int),
{
    let mut trials: Vec<(i32, i32)> = Vec::new();
    if id == PIECE_O {
        trials.push((0, 0));
        assert(trials@ =~= seq![(0i32, 0i32)]);
        return trials;
    }
    let found = if id == PIECE_I {
        find_kicks(&I_KICKS, from, to)
    } else {
        find_kicks(&JLSTZ_KICKS, from, to)
    };
    match found {
        Some(offsets) => {
            let mut j: usize = 0;
            while j < 5
                invariant
                    j <= 5,
                    trials@ == offsets@.take(j as int),
                decreases 5 - j,
            {
                trials.push(offsets[j]);
                assert(trials@ =~= offsets@.take(j + 1));
                j += 1;
            }
            assert(offsets@.take(5) =~= offsets@);
        },
        None => {},
    }
    trials
}

/// No mask is empty: each has the cell in row 1, column 2 or the cell in
/// row 2, column 1.
pub proof fn lemma_mask_not_empty(id: int, rotation: int)
    requires
        0 <= id < PIECE_COUNT,
        0 <= rotation < 4,
    ensures
        mask_at(id, rotation, 1, 2) || mask_at(id, rotation, 2, 1),
{
}

/// The empty colour is the colour of no identity.
pub proof fn lemma_piece_colors(id: int)
    requires
        0 <= id < PIECE_COUNT,
    ensures
        color_of(id) != BOARD_COLOR,
{
}

/// What a rotation relies on in a kick list: it has five offsets at most, each
/// within two cells in either direction, and an offset that lifts the piece
/// comes after the offset that moves it sideways by as much without lifting it.
pub open spec fn kicks_are_sound(trials: Seq<(i32, i32)>) -> bool {
    &&& trials.len() <= 5
    &&& forall|i: int|
        0 <= i < trials.len() ==> -2 <= (#[trigger] trials[i]).0 <= 2 && -2 <= trials[i].1 <= 2
    &&& forall|i: int|
        0 <= i < trials.len() && (#[trigger] trials[i]).1 < 0 ==> exists|j: int|
            0 <= j < i && (#[trigger] trials[j]).0 == trials[i].0 && trials[j].1 == 0
}

/// Every row of a kick table is sound.
proof fn lemma_table_row(table: [((i32, i32), [(i32, i32); 5]); 8], row: int)
    requires
        table == I_KICKS || table == JLSTZ_KICKS,
        0 <= row < 8,
    ensures
        kicks_are_sound(table[row].1@),
{
    let t = table[row].1@;
    assert(t.len() == 5);
    assert(t[0] == (0i32, 0i32));
    assert(t[1].1 == 0);
    assert(t[2].1 == 0 || t[2].0 == t[1].0);
    assert(t[3].1 >= 0 || t[3].0 == t[0].0 || t[3].0 == t[1].0);
    assert(t[4].1 >= 0 || t[4].0 == t[1].0 || t[4].0 == t[2].0);
    assert forall|i: int| 0 <= i < t.len() && (#[trigger] t[i]).1 < 0 implies exists|j: int|
        0 <= j < i && (#[trigger] t[j]).0 == t[i].0 && t[j].1 == 0 by {
        if i == 2 {
            assert(t[1].0 == t[2].0 && t[1].1 == 0);
        } else if i == 3 {
            if t[3].0 == t[0].0 {
                assert(t[0].1 == 0);
            } else {
                assert(t[1].0 == t[3].0 && t[1].1 == 0);
            }
        } else if i == 4 {
            if t[4].0 == t[1].0 {
                assert(t[1].1 == 0);
            } else {
                assert(t[2].0 == t[4].0 && t[2].1 == 0);
            }
        }
    }
}

/// Every kick list is sound, whatever the piece and the turn.
pub proof fn lemma_kick_trials(id: int, from: int, to: int)
    ensures
        kicks_are_sound(kick_trials(id, from, to)),
{
    if id == PIECE_O {
        let t = kick_trials(id, from, to);
        assert(t.len() == 1);
        assert(t[0] == (0i32, 0i32));
    } else {
        let table = if id == PIECE_I {
            I_KICKS
        } else {
            JLSTZ_KICKS
        };
        match kick_row(table, from, to) {
            Some(row) => {
                lemma_table_row(table, row);
            },
            None => {},
        }
    }
}

} // verus!
