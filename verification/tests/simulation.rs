use tetris_pong::bag::TetrisPieceBuffer;
use tetris_pong::board::{clear_lines, line_score, TetrisBoard, TetrisTile};
use tetris_pong::movement::{
    lock_piece, move_piece, spawn, spawn_piece, try_move, try_rotate, TetrisMove,
};
use tetris_pong::piece::{shape, TetrisPiece, PIECE_KINDS};

fn full_row(board: &mut TetrisBoard, y: i32, color: u8) {
    for x in 0..10 {
        board.set(x, y, Some(TetrisTile { color }));
    }
}

fn occupied_count(board: &TetrisBoard) -> usize {
    let mut n = 0;
    for x in 0..10 {
        for y in 0..20 {
            if !board.tile_empty(x, y) {
                n += 1;
            }
        }
    }
    n
}

#[test]
fn every_piece_has_four_cells_in_every_rotation() {
    for id in 0..7u8 {
        let p = shape(id);
        for rot in 0..4usize {
            let mut count = 0;
            for x in 0..4u8 {
                for y in 0..4u8 {
                    if p.value(rot, x, y) {
                        count += 1;
                    }
                }
            }
            assert_eq!(count, 4, "piece {} rotation {}", id, rot);
        }
    }
}

#[test]
fn rotation_wraps_after_four() {
    for id in 0..7u8 {
        let p = shape(id);
        for x in 0..4u8 {
            for y in 0..4u8 {
                assert_eq!(p.value(0, x, y), p.value(4, x, y));
                assert_eq!(p.value(1, x, y), p.value(5, x, y));
            }
        }
    }
}

#[test]
fn four_right_rotations_restore_the_cells() {
    let board = TetrisBoard::new();
    // Keep the piece clear of the walls so every rotation fits.
    let mut cp = spawn(shape(0), 2, &board).expect("spawn on empty board");
    for _ in 0..3 {
        assert!(try_move(&mut cp, &board, TetrisMove::Fall));
    }
    let before: Vec<(i32, i32)> = cp.tiles.iter().map(|t| t.0).collect();
    for _ in 0..4 {
        assert!(try_rotate(&mut cp, &board, TetrisMove::RotateRight));
    }
    let after: Vec<(i32, i32)> = cp.tiles.iter().map(|t| t.0).collect();
    assert_eq!(before, after);
    for _ in 0..4 {
        assert!(try_rotate(&mut cp, &board, TetrisMove::RotateLeft));
    }
    let after_left: Vec<(i32, i32)> = cp.tiles.iter().map(|t| t.0).collect();
    assert_eq!(before, after_left);
}

#[test]
fn moves_into_the_wall_are_rejected_unchanged() {
    let board = TetrisBoard::new();
    let mut cp = spawn(shape(6), 0, &board).expect("spawn on empty board");
    // The O piece spawns at columns 3..5; it can move left three times.
    for _ in 0..3 {
        assert!(try_move(&mut cp, &board, TetrisMove::Left));
    }
    let at_wall = (cp.position, cp.rotation, cp.tiles.clone());
    assert!(!try_move(&mut cp, &board, TetrisMove::Left));
    assert_eq!(at_wall.0, cp.position);
    assert_eq!(at_wall.1, cp.rotation);
    assert_eq!(at_wall.2, cp.tiles);
}

#[test]
fn moves_onto_occupied_cells_are_rejected_unchanged() {
    let mut board = TetrisBoard::new();
    // Block the column just left of the O piece's spawn cells.
    board.set(2, 0, Some(TetrisTile { color: 1 }));
    board.set(2, 1, Some(TetrisTile { color: 1 }));
    let mut cp = spawn(shape(6), 0, &board).expect("spawn on empty board");
    let before = (cp.position, cp.rotation, cp.tiles.clone());
    assert!(!try_move(&mut cp, &board, TetrisMove::Left));
    assert_eq!(before.0, cp.position);
    assert_eq!(before.2, cp.tiles);
    // The right side is free.
    assert!(try_move(&mut cp, &board, TetrisMove::Right));
}

#[test]
fn blocked_rotation_is_rejected_unchanged() {
    let mut board = TetrisBoard::new();
    // The I piece spawns vertical (column 4, rows 0..4); fill the row it
    // would occupy when horizontal.
    for x in 0..10 {
        if x != 4 {
            board.set(x, 1, Some(TetrisTile { color: 3 }));
        }
    }
    let mut cp = spawn(shape(3), 0, &board).expect("spawn on empty board");
    let before = (cp.position, cp.rotation, cp.tiles.clone());
    assert!(!try_rotate(&mut cp, &board, TetrisMove::RotateRight));
    assert_eq!(before.0, cp.position);
    assert_eq!(before.1, cp.rotation);
    assert_eq!(before.2, cp.tiles);
}

#[test]
fn clear_two_full_rows_shifts_everything_down_by_two() {
    let mut board = TetrisBoard::new();
    full_row(&mut board, 5, 0);
    full_row(&mut board, 6, 1);
    // Partially occupied rows above and below the full ones.
    board.set(0, 0, Some(TetrisTile { color: 2 }));
    board.set(3, 4, Some(TetrisTile { color: 3 }));
    board.set(7, 10, Some(TetrisTile { color: 4 }));
    board.set(9, 19, Some(TetrisTile { color: 5 }));
    let cleared = clear_lines(&mut board);
    assert_eq!(cleared, 2);
    // Rows above the cleared pair dropped by two.
    assert_eq!(board.tiles[0][2], Some(TetrisTile { color: 2 }));
    assert_eq!(board.tiles[3][6], Some(TetrisTile { color: 3 }));
    // Rows below the cleared pair stayed.
    assert_eq!(board.tiles[7][10], Some(TetrisTile { color: 4 }));
    assert_eq!(board.tiles[9][19], Some(TetrisTile { color: 5 }));
    // The two top rows are empty, and only four cells remain.
    for x in 0..10 {
        assert!(board.tile_empty(x, 0));
        assert!(board.tile_empty(x, 1));
    }
    assert_eq!(occupied_count(&board), 4);
}

#[test]
fn clearing_an_empty_board_clears_nothing() {
    let mut board = TetrisBoard::new();
    assert_eq!(clear_lines(&mut board), 0);
    assert_eq!(occupied_count(&board), 0);
}

#[test]
fn clearing_a_completely_full_board_clears_everything() {
    let mut board = TetrisBoard::new();
    for y in 0..20 {
        full_row(&mut board, y, 2);
    }
    assert_eq!(clear_lines(&mut board), 20);
    assert_eq!(occupied_count(&board), 0);
}

#[test]
fn line_score_table() {
    assert_eq!(line_score(0), 0);
    assert_eq!(line_score(1), 40);
    assert_eq!(line_score(2), 100);
    assert_eq!(line_score(3), 30);
    assert_eq!(line_score(4), 1200);
    assert_eq!(line_score(5), 0);
}

fn piece_id(p: &TetrisPiece) -> u8 {
    for id in 0..PIECE_KINDS {
        if shape(id).data == p.data {
            return id;
        }
    }
    panic!("not a catalog piece");
}

#[test]
fn bag_hands_out_each_piece_exactly_once_per_seven_draws() {
    let mut bag = TetrisPieceBuffer::new();
    for _round in 0..3 {
        let mut seen = [false; 7];
        for _ in 0..7 {
            let id = piece_id(&bag.pop()) as usize;
            assert!(!seen[id], "piece {} drawn twice in one run of seven", id);
            seen[id] = true;
        }
        assert!(seen.iter().all(|s| *s));
    }
}

#[test]
fn seeded_bags_draw_the_same_pieces_in_the_same_order() {
    let mut a = TetrisPieceBuffer::new_seeded(42);
    let mut b = TetrisPieceBuffer::new_seeded(42);
    let mut seen = [false; 7];
    for _ in 0..7 {
        let pa = piece_id(&a.pop());
        let pb = piece_id(&b.pop());
        assert_eq!(pa, pb);
        assert!(!seen[pa as usize]);
        seen[pa as usize] = true;
    }
    assert!(seen.iter().all(|s| *s));
}

#[test]
fn out_of_bounds_cells_count_as_blocked() {
    let board = TetrisBoard::new();
    assert!(!board.tile_empty(-1, 0));
    assert!(!board.tile_empty(10, 0));
    assert!(!board.tile_empty(0, -1));
    assert!(!board.tile_empty(0, 20));
    assert!(board.tile_empty(0, 0));
    assert!(board.tile_empty(9, 19));
}

#[test]
fn out_of_bounds_writes_are_ignored() {
    let mut board = TetrisBoard::new();
    board.set(-1, 0, Some(TetrisTile { color: 0 }));
    board.set(10, 3, Some(TetrisTile { color: 0 }));
    board.set(0, 20, Some(TetrisTile { color: 0 }));
    assert_eq!(occupied_count(&board), 0);
    board.set(4, 4, Some(TetrisTile { color: 0 }));
    assert_eq!(occupied_count(&board), 1);
    board.set(4, 4, None);
    assert_eq!(occupied_count(&board), 0);
}

#[test]
fn spawning_onto_occupied_cells_is_a_top_out() {
    let mut board = TetrisBoard::new();
    for y in 0..4 {
        full_row(&mut board, y, 1);
    }
    assert!(spawn(shape(0), 0, &board).is_none());
    let mut bag = TetrisPieceBuffer::new();
    assert!(spawn_piece(&mut bag, &board).is_none());
}

#[test]
fn spawned_pieces_take_an_admissible_color() {
    let board = TetrisBoard::new();
    let mut bag = TetrisPieceBuffer::new();
    for _ in 0..14 {
        let cp = spawn_piece(&mut bag, &board).expect("spawn on empty board");
        assert!(cp.color < 6);
        assert!(cp.tiles.iter().all(|t| t.1.color == cp.color));
        assert_eq!(cp.position, (3, 0));
        assert_eq!(cp.rotation, 0);
    }
}

#[test]
fn a_blocked_fall_locks_the_piece_into_the_board() {
    let mut board = TetrisBoard::new();
    let cp = spawn(shape(6), 4, &board).expect("spawn on empty board");
    let falls = vec![TetrisMove::Fall; 25];
    let r = move_piece(cp, &mut board, &falls);
    assert!(r.is_none(), "the piece must lock at the floor");
    assert_eq!(occupied_count(&board), 4);
    // The O piece lands on the bottom two rows, columns 3 and 4.
    for x in 3..5 {
        for y in 18..20 {
            assert_eq!(board.tiles[x][y], Some(TetrisTile { color: 4 }));
        }
    }
}

#[test]
fn move_piece_applies_the_queue_in_order() {
    let mut board = TetrisBoard::new();
    let cp = spawn(shape(6), 0, &board).expect("spawn on empty board");
    let moves = vec![TetrisMove::Left, TetrisMove::Left, TetrisMove::Fall, TetrisMove::Right];
    let r = move_piece(cp, &mut board, &moves).expect("nothing blocks these moves");
    assert_eq!(r.position, (2, 1));
    assert_eq!(occupied_count(&board), 0);
}

#[test]
fn locking_writes_every_cell_of_the_piece() {
    let mut board = TetrisBoard::new();
    let cp = spawn(shape(3), 3, &board).expect("spawn on empty board");
    lock_piece(&cp, &mut board);
    assert_eq!(occupied_count(&board), 4);
    for t in cp.tiles.iter() {
        assert_eq!(board.tiles[t.0 .0 as usize][t.0 .1 as usize], Some(t.1));
    }
}
