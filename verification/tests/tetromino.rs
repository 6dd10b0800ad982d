use tetris::global::shape_cell;
use tetris::tetromino::Tetromino;

#[test]
fn new_piece_enters_at_the_spawn_anchor() {
    let piece = Tetromino::new(5, None);
    assert_eq!(piece, Tetromino { id: 5, rotation: 0, pos: (3, -2), color: (110, 40, 230) });
    assert!(piece.is_wf());
}

#[test]
fn new_piece_takes_the_anchor_it_is_given() {
    let piece = Tetromino::new(0, Some((7, 12)));
    assert_eq!(piece, Tetromino { id: 0, rotation: 0, pos: (7, 12), color: (0, 190, 225) });
}

#[test]
fn shape_is_the_mask_of_the_rotation_state() {
    for id in 0..7 {
        let mut piece = Tetromino::new(id, None);
        for rotation in 0..4 {
            assert_eq!(piece.rotation, rotation);
            let mask = piece.shape();
            for row in 0..4 {
                for col in 0..4 {
                    assert_eq!(mask[row][col], shape_cell(id, rotation, row, col));
                }
            }
            piece.rotate_shape(true);
        }
        assert_eq!(piece.rotation, 0);
    }
}

#[test]
fn rotate_shape_steps_through_the_states() {
    let mut piece = Tetromino::new(5, Some((4, 9)));
    piece.rotate_shape(true);
    assert_eq!(piece, Tetromino { id: 5, rotation: 1, pos: (4, 9), color: (110, 40, 230) });
    piece.rotate_shape(true);
    piece.rotate_shape(true);
    assert_eq!(piece.rotation, 3);
    piece.rotate_shape(true);
    assert_eq!(piece.rotation, 0);
    piece.rotate_shape(false);
    assert_eq!(piece.rotation, 3);
    piece.rotate_shape(false);
    assert_eq!(piece.rotation, 2);
    assert_eq!(piece.pos, (4, 9));
}

#[test]
fn preview_offset_centres_pieces_three_cells_wide() {
    let expected = [0u8, 1, 1, 0, 1, 1, 1];
    for id in 0..7 {
        assert_eq!(Tetromino::new(id, None).preview_offset(), expected[id], "identity {}", id);
    }
}

#[test]
fn preview_offset_of_an_upright_i_piece_is_zero() {
    let mut piece = Tetromino::new(0, None);
    piece.rotate_shape(true);
    assert_eq!(piece.preview_offset(), 0);
}

#[test]
fn is_wf_checks_identity_rotation_and_colour() {
    assert!(Tetromino { id: 6, rotation: 3, pos: (0, 0), color: (220, 60, 90) }.is_wf());
    assert!(!Tetromino { id: 7, rotation: 0, pos: (0, 0), color: (220, 60, 90) }.is_wf());
    assert!(!Tetromino { id: 6, rotation: 4, pos: (0, 0), color: (220, 60, 90) }.is_wf());
    assert!(!Tetromino { id: 6, rotation: 0, pos: (0, 0), color: (20, 20, 20) }.is_wf());
}
