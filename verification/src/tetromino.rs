use vstd::prelude::*;

use crate::global::{color_of, mask_at, PIECE_COUNT, SHAPE_COLORS, SHAPE_MASKS, TETROMINO_SPAWN_POS};

verus! {

/// A piece in play: one of the seven identities, in one of its four rotation
/// states, with the top-left corner of its 4x4 box at `pos` = (column, row).
/// Rows grow downwards; negative rows lie above the visible playfield.
#[derive(Clone, Copy, Debug, PartialEq, Eq)]
pub struct Tetromino {
    pub id: usize,
    pub rotation: usize,
    pub pos: (i32, i32),
    pub color: (u8, u8, u8),
}

impl Tetromino {
    /// The identity and the rotation state are in range and the colour is the
    /// one that the catalogue gives the identity.
    pub open spec fn wf(&self) -> bool {
        &&& self.id < PIECE_COUNT
        &&& self.rotation < 4
        &&& self.color == color_of(self.id as int)
    }

    /// Whether the cell (`row`, `col`) of the piece's own 4x4 box is filled.
    pub open spec fn filled(&self, row: int, col: int) -> bool {
        0 <= row < 4 && 0 <= col < 4 && mask_at(self.id as int, self.rotation as int, row, col)
    }

    /// Whether the piece occupies the playfield cell in column `col` of row `row`.
    pub open spec fn covers(&self, col: int, row: int) -> bool {
        self.filled(row - self.pos.1, col - self.pos.0)
    }

    /// The same piece, moved by `dx` columns and `dy` rows.
    pub open spec fn shifted(&self, dx: int, dy: int) -> Tetromino {
        Tetromino {
            id: self.id,
            rotation: self.rotation,
            pos: ((self.pos.0 + dx) as i32, (self.pos.1 + dy) as i32),
            color: self.color,
        }
    }

    /// The same piece at the anchor `pos`.
    pub open spec fn moved_to(&self, pos: (i32, i32)) -> Tetromino {
        Tetromino { id: self.id, rotation: self.rotation, pos: pos, color: self.color }
    }

    /// The rotation state that follows `rotation` in the given direction.
    pub open spec fn next_rotation(rotation: int, clockwise: bool) -> int {
        if clockwise {
            (rotation + 1) % 4
        } else {
            (rotation + 3) % 4
        }
    }

    /// The same piece, turned by one step in place.
    pub open spec fn rotated(&self, clockwise: bool) -> Tetromino {
        Tetromino {
            id: self.id,
            rotation: Self::next_rotation(self.rotation as int, clockwise) as usize,
            pos: self.pos,
            color: self.color,
        }
    }

    /// A piece as it enters play: rotation state 0, at the spawn anchor.
    pub open spec fn fresh(id: usize) -> Tetromino {
        Tetromino { id: id, rotation: 0, pos: TETROMINO_SPAWN_POS, color: color_of(id as int) }
    }

    /// Makes the piece of identity `id` in rotation state 0, at `pos` or, where
    /// none is given, at the spawn anchor.
    pub fn new(id: usize, pos: Option<(i32, i32)>) -> (piece: Tetromino)
        requires
            id < PIECE_COUNT,
        ensures
            piece == Self::fresh(id).moved_to(
                match pos {
                    Some(p) => p,
                    None => TETROMINO_SPAWN_POS,
                },
            ),
            piece.wf(),
    {
        let anchor = match pos {
            Some(p) => p,
            None => TETROMINO_SPAWN_POS,
        };
        Tetromino { id, rotation: 0, pos: anchor, color: SHAPE_COLORS[id] }
    }

    /// The occupancy mask of the piece in its present rotation state.
    pub fn shape(&self) -> (mask: [[bool; 4]; 4])
        requires
            self.wf(),
        ensures
            forall|row: int, col: int|
                0 <= row < 4 && 0 <= col < 4 ==> #[trigger] mask[row][col] == self.filled(row, col),
    {
        SHAPE_MASKS[self.id][self.rotation]
    }

    /// Turns the piece by one step: the rotation state advances by one,
    /// clockwise or counterclockwise, and the mask is the catalogue's mask of the
    /// new state. Identity, anchor and colour stay.
    pub fn rotate_shape(&mut self, clockwise: bool)
        requires
            old(self).wf(),
        ensures
            *final(self) == old(self).rotated(clockwise),
            final(self).wf(),
    {
        if clockwise {
            self.rotation = (self.rotation + 1) % 4;
        } else {
            self.rotation = (self.rotation + 3) % 4;
        }
    }
    /// Whether the cell (`row`, `col`) of the mask is filled and the cell right
    /// above it is not: the cell is a top edge of the piece.
    pub open spec fn top_edge(&self, row: int, col: int) -> bool {
        self.filled(row, col) && !self.filled(row - 1, col)
    }

    /// The number of top edges among the first `k` cells of the rows 1 to 3 of
    /// the mask, counted row by row.
    pub open spec fn top_edges(&self, k: nat) -> nat
        decreases k,
    {
        if k == 0 {
            0
        } else {
            self.top_edges((k - 1) as nat) + if self.top_edge(1 + (k - 1) / 4, (k - 1) % 4) {
                1nat
            } else {
                0nat
            }
        }
    }

    /// Whether the piece is itself: identity and rotation state in range, and
    /// the colour of its identity.
    pub fn is_wf(&self) -> (ok: bool)
        ensures
            ok == self.wf(),
    {
        self.id < PIECE_COUNT && self.rotation < 4 && {
            let color = SHAPE_COLORS[self.id];
            self.color.0 == color.0 && self.color.1 == color.1 && self.color.2 == color.2
        }
    }

    /// How far to the right a display shifts the piece to centre it in a box
    /// four cells wide, in half cells: one half cell for a piece whose mask has
    /// three top edges below its first row, which is then three cells wide, and
    /// nothing for any other.
    pub fn preview_offset(&self) -> (halves: u8)
        requires
            self.wf(),
        ensures
            halves == (if self.top_edges(12) == 3 {
                1u8
            } else {
                0u8
            }),
    {
        let mask = self.shape();
        let mut count: u8 = 0;
        let mut k: usize = 0;
        while k < 12
            invariant
                k <= 12,
                count == self.top_edges(k as nat),
                count <= k,
                forall|row: int, col: int|
                    0 <= row < 4 && 0 <= col < 4 ==> #[trigger] mask[row][col] == self.filled(
                        row,
                        col,
                    ),
            decreases 12 - k,
        {
            let row = 1 + k / 4;
            let col = k % 4;
            if mask[row][col] && !mask[row - 1][col] {
                count += 1;
            }
            k += 1;
        }
        if count == 3 {
            1
        } else {
            0
        }
    }
}

} // verus!
