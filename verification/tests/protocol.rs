use tetris_pong::board::{TetrisBoard, TetrisTile};
use tetris_pong::channel::{serialize_message, SyncChannel};
use tetris_pong::message::{
    decode_message, decode_server_message, encode_message, encode_server_message, ClientMessage,
    GameMode, ServerMessage,
};
use tetris_pong::movement::TetrisMove;
use tetris_pong::sync::{board_update_frame, on_message};

fn sample_board() -> TetrisBoard {
    let mut board = TetrisBoard::new();
    board.set(0, 0, Some(TetrisTile { color: 0 }));
    board.set(9, 19, Some(TetrisTile { color: 5 }));
    board.set(4, 7, Some(TetrisTile { color: 3 }));
    board.set(4, 8, Some(TetrisTile { color: 3 }));
    board
}

fn boards_equal(a: &TetrisBoard, b: &TetrisBoard) -> bool {
    for x in 0..10 {
        for y in 0..20 {
            if a.tiles[x][y] != b.tiles[x][y] {
                return false;
            }
        }
    }
    true
}

#[test]
fn board_snapshot_round_trips_through_the_framed_bytes() {
    let board = sample_board();
    let bytes = serialize_message(&ClientMessage::BoardUpdate(board.snapshot()));
    let mut channel = SyncChannel::new();
    channel.push_bytes(&bytes);
    let payload = channel.next_frame().expect("one complete frame");
    match decode_message(&payload) {
        Some(ClientMessage::BoardUpdate(got)) => {
            assert!(boards_equal(&board, &got), "every cell, empty ones included");
        }
        other => panic!("expected a board update, got {:?}", other.is_some()),
    }
    assert!(channel.next_frame().is_none());
}

#[test]
fn a_length_prefix_split_across_two_reads_still_parses() {
    let board = sample_board();
    let bytes = board_update_frame(&board);
    let mut channel = SyncChannel::new();
    // The two prefix bytes arrive one at a time.
    channel.push_bytes(&bytes[0..1]);
    assert!(channel.next_frame().is_none(), "half a prefix is not a frame");
    channel.push_bytes(&bytes[1..2]);
    assert!(channel.next_frame().is_none(), "a prefix without its payload is not a frame");
    channel.push_bytes(&bytes[2..]);
    let payload = channel.next_frame().expect("the frame is complete now");
    match decode_message(&payload) {
        Some(ClientMessage::BoardUpdate(got)) => assert!(boards_equal(&board, &got)),
        _ => panic!("expected a board update"),
    }
}

#[test]
fn a_partial_payload_stays_buffered() {
    let msg = ClientMessage::GameEnd(7);
    let bytes = serialize_message(&msg);
    assert_eq!(bytes.len(), 4);
    let mut channel = SyncChannel::new();
    channel.push_bytes(&bytes[0..3]);
    assert!(channel.next_frame().is_none());
    channel.push_bytes(&bytes[3..]);
    let payload = channel.next_frame().expect("complete frame");
    assert!(matches!(decode_message(&payload), Some(ClientMessage::GameEnd(7))));
}

#[test]
fn two_frames_in_one_delivery_come_out_one_by_one() {
    let mut bytes = serialize_message(&ClientMessage::GameStart);
    bytes.extend(serialize_message(&ClientMessage::OtherTetrisMove(TetrisMove::Left)));
    let mut channel = SyncChannel::new();
    channel.push_bytes(&bytes);
    let first = channel.next_message().expect("first frame").expect("decodes");
    assert!(matches!(first, ClientMessage::GameStart));
    let second = channel.next_message().expect("second frame").expect("decodes");
    assert!(matches!(second, ClientMessage::OtherTetrisMove(TetrisMove::Left)));
    assert!(channel.next_message().is_none());
}

#[test]
fn the_frame_prefix_is_the_big_endian_payload_length() {
    let board = TetrisBoard::new();
    let bytes = board_update_frame(&board);
    // A board payload is one tag byte plus 200 cell bytes.
    assert_eq!(bytes.len(), 2 + 201);
    assert_eq!(bytes[0], 0);
    assert_eq!(bytes[1], 201);
    assert_eq!(bytes[2], 4);
    let small = serialize_message(&ClientMessage::GameStart);
    assert_eq!(small, vec![0, 1, 0]);
}

#[test]
fn every_simple_message_round_trips() {
    let moves = [
        TetrisMove::Left,
        TetrisMove::Right,
        TetrisMove::Fall,
        TetrisMove::RotateLeft,
        TetrisMove::RotateRight,
    ];
    for (i, m) in moves.iter().enumerate() {
        let bytes = encode_message(&ClientMessage::OtherTetrisMove(*m));
        assert_eq!(bytes, vec![1, i as u8]);
        assert!(matches!(
            decode_message(&bytes),
            Some(ClientMessage::OtherTetrisMove(got)) if got == *m
        ));
    }
    let modes = [GameMode::Normal, GameMode::Hyper, GameMode::Swap];
    for (i, g) in modes.iter().enumerate() {
        let bytes = encode_message(&ClientMessage::GameMode(*g));
        assert_eq!(bytes, vec![2, i as u8]);
        assert!(matches!(
            decode_message(&bytes),
            Some(ClientMessage::GameMode(got)) if got == *g
        ));
    }
    assert!(matches!(
        decode_message(&encode_message(&ClientMessage::GameStart)),
        Some(ClientMessage::GameStart)
    ));
    assert!(matches!(
        decode_message(&encode_message(&ClientMessage::GameEnd(2))),
        Some(ClientMessage::GameEnd(2))
    ));
}

#[test]
fn malformed_payloads_decode_to_nothing() {
    // Unknown tag.
    assert!(decode_message(&vec![9]).is_none());
    // Empty payload.
    assert!(decode_message(&Vec::new()).is_none());
    // Trailing byte after a bare tag.
    assert!(decode_message(&vec![0, 0]).is_none());
    // A move byte out of range.
    assert!(decode_message(&vec![1, 5]).is_none());
    // A mode byte out of range.
    assert!(decode_message(&vec![2, 3]).is_none());
    // A winner without its byte.
    assert!(decode_message(&vec![3]).is_none());
    // A board payload of the wrong length.
    assert!(decode_message(&vec![4, 0, 0]).is_none());
    // A board payload with an impossible cell byte.
    let mut bytes = encode_message(&ClientMessage::BoardUpdate(TetrisBoard::new()));
    bytes[5] = 7;
    assert!(decode_message(&bytes).is_none());
}

#[test]
fn a_dropped_frame_does_not_block_the_next_one() {
    let mut bytes = vec![0, 1, 9];  // a framed unknown tag
    bytes.extend(serialize_message(&ClientMessage::GameEnd(1)));
    let mut channel = SyncChannel::new();
    channel.push_bytes(&bytes);
    assert!(channel.next_message().expect("a complete frame").is_none());
    let second = channel.next_message().expect("second frame").expect("decodes");
    assert!(matches!(second, ClientMessage::GameEnd(1)));
}

#[test]
fn drain_hands_out_all_buffered_messages_in_order() {
    let mut bytes = serialize_message(&ClientMessage::GameStart);
    bytes.extend(vec![0, 1, 9]);  // a framed unknown tag, dropped silently
    bytes.extend(serialize_message(&ClientMessage::GameEnd(3)));
    let partial = serialize_message(&ClientMessage::GameMode(GameMode::Swap));
    bytes.extend(partial[..2].to_vec());
    let mut channel = SyncChannel::new();
    channel.push_bytes(&bytes);
    let msgs = channel.drain_messages();
    assert_eq!(msgs.len(), 2);
    assert!(matches!(msgs[0], ClientMessage::GameStart));
    assert!(matches!(msgs[1], ClientMessage::GameEnd(3)));
    // The partial frame at the end is still waiting for its payload.
    channel.push_bytes(&partial[2..]);
    let rest = channel.drain_messages();
    assert_eq!(rest.len(), 1);
    assert!(matches!(rest[0], ClientMessage::GameMode(GameMode::Swap)));
}

#[test]
fn a_board_update_overwrites_the_remote_mirror() {
    let board = sample_board();
    let mut mirror = TetrisBoard::new();
    assert!(on_message(ClientMessage::BoardUpdate(board.snapshot()), &mut mirror));
    assert!(boards_equal(&board, &mirror));
}

#[test]
fn other_messages_leave_the_remote_mirror_alone() {
    let board = sample_board();
    let mut mirror = board.snapshot();
    assert!(!on_message(ClientMessage::GameStart, &mut mirror));
    assert!(!on_message(ClientMessage::GameEnd(0), &mut mirror));
    assert!(!on_message(ClientMessage::GameMode(GameMode::Hyper), &mut mirror));
    assert!(!on_message(
        ClientMessage::OtherTetrisMove(TetrisMove::Left),
        &mut mirror
    ));
    assert!(boards_equal(&board, &mirror));
}

#[test]
fn relayed_moves_round_trip() {
    let moves = [
        TetrisMove::Left,
        TetrisMove::Right,
        TetrisMove::Fall,
        TetrisMove::RotateLeft,
        TetrisMove::RotateRight,
    ];
    for m in moves.iter() {
        let bytes = encode_server_message(&ServerMessage::TetrisMove(*m));
        assert!(matches!(
            decode_server_message(&bytes),
            Some(ServerMessage::TetrisMove(got)) if got == *m
        ));
    }
    assert!(decode_server_message(&vec![0, 5]).is_none());
    assert!(decode_server_message(&vec![1, 0]).is_none());
}
