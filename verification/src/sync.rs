//! Keeping the two players' boards consistent.
//!
//! Whenever an operation reports that the local board changed — a piece
//! locked, rows cleared — the caller sends the framed snapshot produced
//! here.  A received snapshot overwrites the remote-board mirror; every
//! other message is ignored by the mirror and left to the game-state layer.

use crate::board::{in_bounds, TetrisBoard};
use crate::channel::{serialize_message, spec_frame};
use crate::message::{msg_wf, spec_board_bytes, spec_encode_message, ClientMessage};
use vstd::prelude::*;

verus! {

/// The framed bytes that carry a full snapshot of the board, ready to be
/// written to the peer's stream.
pub fn board_update_frame(board: &TetrisBoard) -> (r: Vec<u8>)
    requires
        board.wf(),
    ensures
        r@ == spec_frame(seq![4u8] + spec_board_bytes(*board)),
{
    let snap = board.snapshot();
    proof {
        assert forall|i: int|
            0 <= i < 200 implies spec_board_bytes(snap)[i] == spec_board_bytes(*board)[i] by {
            assert(in_bounds(i / 20, i % 20));
            assert(snap.cell(i / 20, i % 20) == board.cell(i / 20, i % 20));
        }
        assert(spec_board_bytes(snap) =~= spec_board_bytes(*board));
    }
    let msg = ClientMessage::BoardUpdate(snap);
    serialize_message(&msg)
}

/// Apply one received message to the remote-board mirror.  Only a board
/// snapshot changes the mirror, and the result says whether one did; an
/// unrecognized or irrelevant message is no error.
pub fn on_message(msg: ClientMessage, remote: &mut TetrisBoard) -> (applied: bool)
    requires
        msg_wf(msg),
        old(remote).wf(),
    ensures
        final(remote).wf(),
        match msg {
            ClientMessage::BoardUpdate(b) => applied && forall|x: int, y: int|
                in_bounds(x, y) ==> final(remote).cell(x, y) == b.cell(x, y),
            _ => !applied && *final(remote) == *old(remote),
        },
{
    match msg {
        ClientMessage::BoardUpdate(b) => {
            *remote = b;
            true
        },
        _ => false,
    }
}

} // verus!
