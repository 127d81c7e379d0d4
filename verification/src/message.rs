//! The tagged binary message format of the sync protocol.
//!
//! Each message is a closed sum with an explicit one-byte tag followed by its
//! payload; a board snapshot is sent whole, one byte per cell in column-major
//! order (`0` empty, `color + 1` occupied).  The encoding is canonical:
//! `decode_message` accepts exactly the byte strings that `encode_message`
//! produces.

use crate::board::{cell_ok, in_bounds, TetrisBoard, TetrisTile};
use crate::movement::TetrisMove;
use vstd::prelude::*;

verus! {

/// The mode a game round runs in.
#[derive(Clone, Copy, Debug, PartialEq, Eq, Structural)]
pub enum GameMode {
    Normal,
    Hyper,
    Swap,
}

/// One protocol message between the two peers.
pub enum ClientMessage {
    /// Start the game.
    GameStart,
    /// The other player's piece moved.
    OtherTetrisMove(TetrisMove),
    /// Switch the game mode.
    GameMode(GameMode),
    /// End the game; the payload names the winning player.
    GameEnd(u8),
    /// A full snapshot of the sender's board.
    BoardUpdate(TetrisBoard),
}

/// A move relayed toward the host.
pub enum ServerMessage {
    TetrisMove(TetrisMove),
}

/// The byte that stands for a movement command.
pub open spec fn spec_move_byte(m: TetrisMove) -> u8 {
    match m {
        TetrisMove::Left => 0u8,
        TetrisMove::Right => 1u8,
        TetrisMove::Fall => 2u8,
        TetrisMove::RotateLeft => 3u8,
        TetrisMove::RotateRight => 4u8,
    }
}

/// The byte that stands for a game mode.
pub open spec fn spec_mode_byte(g: GameMode) -> u8 {
    match g {
        GameMode::Normal => 0u8,
        GameMode::Hyper => 1u8,
        GameMode::Swap => 2u8,
    }
}

/// The byte that stands for one board cell: `0` empty, `color + 1` occupied.
pub open spec fn spec_cell_byte(c: Option<TetrisTile>) -> u8
    recommends
        cell_ok(c),
{
    match c {
        None => 0u8,
        Some(t) => (t.color + 1) as u8,
    }
}

/// The 200 cell bytes of a board, column by column.
pub open spec fn spec_board_bytes(b: TetrisBoard) -> Seq<u8> {
    Seq::new(200, |i: int| spec_cell_byte(b.cell(i / 20, i % 20)))
}

/// The payload bytes of a message: a tag byte and the variant's data.
pub open spec fn spec_encode_message(m: ClientMessage) -> Seq<u8> {
    match m {
        ClientMessage::GameStart => seq![0u8],
        ClientMessage::OtherTetrisMove(mv) => seq![1u8, spec_move_byte(mv)],
        ClientMessage::GameMode(g) => seq![2u8, spec_mode_byte(g)],
        ClientMessage::GameEnd(w) => seq![3u8, w],
        ClientMessage::BoardUpdate(b) => seq![4u8] + spec_board_bytes(b),
    }
}

/// The payload bytes of a relayed move.
pub open spec fn spec_encode_server_message(m: ServerMessage) -> Seq<u8> {
    match m {
        ServerMessage::TetrisMove(mv) => seq![0u8, spec_move_byte(mv)],
    }
}

/// A board carried inside a message is well-formed.
pub open spec fn msg_wf(m: ClientMessage) -> bool {
    match m {
        ClientMessage::BoardUpdate(b) => b.wf(),
        _ => true,
    }
}

/// The byte shapes that are the encoding of some well-formed message.
pub open spec fn spec_valid_encoding(b: Seq<u8>) -> bool {
    ||| (b.len() == 1 && b[0] == 0)
    ||| (b.len() == 2 && b[0] == 1 && b[1] < 5)
    ||| (b.len() == 2 && b[0] == 2 && b[1] < 3)
    ||| (b.len() == 2 && b[0] == 3)
    ||| (b.len() == 201 && b[0] == 4 && (forall|k: int| 0 <= k < 200 ==> #[trigger] b[1 + k] <= 6))
}

/// Every encoding of a well-formed message has a valid shape, and is at most
/// 201 bytes long.
pub proof fn lemma_encode_valid(m: ClientMessage)
    requires
        msg_wf(m),
    ensures
        spec_valid_encoding(spec_encode_message(m)),
        1 <= spec_encode_message(m).len() <= 201,
{
    match m {
        ClientMessage::BoardUpdate(b) => {
            let e = spec_encode_message(m);
            assert(e.len() == 201);
            assert(e[0] == 4);
            assert forall|k: int| 0 <= k < 200 implies #[trigger] e[1 + k] <= 6 by {
                assert(e[1 + k] == spec_board_bytes(b)[k]);
                assert(spec_board_bytes(b)[k] == spec_cell_byte(b.cell(k / 20, k % 20)));
                assert(in_bounds(k / 20, k % 20));
                assert(cell_ok(b.cell(k / 20, k % 20)));
            }
        },
        _ => {},
    }
}

/// No well-formed message encodes to an invalid byte shape.
proof fn lemma_invalid_undecodable(b: Seq<u8>)
    requires
        !spec_valid_encoding(b),
    ensures
        forall|m: ClientMessage| msg_wf(m) ==> spec_encode_message(m) != b,
{
    assert forall|m: ClientMessage| msg_wf(m) implies spec_encode_message(m) != b by {
        lemma_encode_valid(m);
    }
}

/// Message equality up to board contents: boards compare cell by cell, every
/// other payload by value.
pub open spec fn msg_equiv(a: ClientMessage, b: ClientMessage) -> bool {
    match (a, b) {
        (ClientMessage::BoardUpdate(x), ClientMessage::BoardUpdate(y)) => forall|i: int, j: int|
            in_bounds(i, j) ==> #[trigger] x.cell(i, j) == y.cell(i, j),
        _ => a == b,
    }
}

/// The encoding is injective: two well-formed messages with the same bytes
/// are the same message, boards compared cell by cell.
pub proof fn lemma_encode_injective(a: ClientMessage, b: ClientMessage)
    requires
        msg_wf(a),
        msg_wf(b),
        spec_encode_message(a) == spec_encode_message(b),
    ensures
        msg_equiv(a, b),
{
    let ea = spec_encode_message(a);
    let eb = spec_encode_message(b);
    match (a, b) {
        (ClientMessage::BoardUpdate(x), ClientMessage::BoardUpdate(y)) => {
            assert forall|i: int, j: int| in_bounds(i, j) implies #[trigger] x.cell(i, j) == y.cell(
                i,
                j,
            ) by {
                let k = i * 20 + j;
                assert(0 <= k < 200);
                assert(k / 20 == i && k % 20 == j);
                assert(ea[1 + k] == spec_cell_byte(x.cell(i, j)));
                assert(eb[1 + k] == spec_cell_byte(y.cell(i, j)));
                assert(cell_ok(x.cell(i, j)) && cell_ok(y.cell(i, j)));
            }
        },
        _ => {
            assert(ea[0] == eb[0]);
            if ea.len() == 2 {
                assert(ea[1] == eb[1]);
            }
        },
    }
}

/// Round trip: any legal answer of `decode_message` on the encoding of a
/// well-formed message is that same message, boards compared cell by cell.
pub proof fn lemma_round_trip(m: ClientMessage, r: Option<ClientMessage>)
    requires
        msg_wf(m),
        match r {
            Some(m2) => msg_wf(m2) && spec_encode_message(m2) == spec_encode_message(m),
            None => forall|m2: ClientMessage|
                msg_wf(m2) ==> spec_encode_message(m2) != spec_encode_message(m),
        },
    ensures
        r is Some,
        msg_equiv(r.unwrap(), m),
{
    match r {
        Some(m2) => {
            lemma_encode_injective(m2, m);
        },
        None => {
            assert(spec_encode_message(m) == spec_encode_message(m));
        },
    }
}

/// The movement command's wire byte.
pub fn move_byte(m: TetrisMove) -> (r: u8)
    ensures
        r == spec_move_byte(m),
{
    match m {
        TetrisMove::Left => 0,
        TetrisMove::Right => 1,
        TetrisMove::Fall => 2,
        TetrisMove::RotateLeft => 3,
        TetrisMove::RotateRight => 4,
    }
}

/// The game mode's wire byte.
pub fn mode_byte(g: GameMode) -> (r: u8)
    ensures
        r == spec_mode_byte(g),
{
    match g {
        GameMode::Normal => 0,
        GameMode::Hyper => 1,
        GameMode::Swap => 2,
    }
}

/// One board cell's wire byte.
fn cell_byte(c: &Option<TetrisTile>) -> (r: u8)
    requires
        cell_ok(*c),
    ensures
        r == spec_cell_byte(*c),
{
    match c {
        None => 0,
        Some(t) => t.color + 1,
    }
}

/// The movement command a wire byte stands for, if any.
pub fn decode_move(b: u8) -> (r: Option<TetrisMove>)
    ensures
        r matches Some(mv) ==> spec_move_byte(mv) == b,
        r is None ==> b >= 5,
{
    if b == 0 {
        Some(TetrisMove::Left)
    } else if b == 1 {
        Some(TetrisMove::Right)
    } else if b == 2 {
        Some(TetrisMove::Fall)
    } else if b == 3 {
        Some(TetrisMove::RotateLeft)
    } else if b == 4 {
        Some(TetrisMove::RotateRight)
    } else {
        None
    }
}

/// The game mode a wire byte stands for, if any.
pub fn decode_mode(b: u8) -> (r: Option<GameMode>)
    ensures
        r matches Some(g) ==> spec_mode_byte(g) == b,
        r is None ==> b >= 3,
{
    if b == 0 {
        Some(GameMode::Normal)
    } else if b == 1 {
        Some(GameMode::Hyper)
    } else if b == 2 {
        Some(GameMode::Swap)
    } else {
        None
    }
}

/// Encode a message as its tagged binary payload.
pub fn encode_message(m: &ClientMessage) -> (r: Vec<u8>)
    requires
        msg_wf(*m),
    ensures
        r@ == spec_encode_message(*m),
{
    match m {
        ClientMessage::GameStart => {
            let mut v: Vec<u8> = Vec::new();
            v.push(0);
            proof {
                assert(v@ =~= spec_encode_message(*m));
            }
            v
        },
        ClientMessage::OtherTetrisMove(mv) => {
            let mut v: Vec<u8> = Vec::new();
            v.push(1);
            v.push(move_byte(*mv));
            proof {
                assert(v@ =~= spec_encode_message(*m));
            }
            v
        },
        ClientMessage::GameMode(g) => {
            let mut v: Vec<u8> = Vec::new();
            v.push(2);
            v.push(mode_byte(*g));
            proof {
                assert(v@ =~= spec_encode_message(*m));
            }
            v
        },
        ClientMessage::GameEnd(w) => {
            let mut v: Vec<u8> = Vec::new();
            v.push(3);
            v.push(*w);
            proof {
                assert(v@ =~= spec_encode_message(*m));
            }
            v
        },
        ClientMessage::BoardUpdate(b) => {
            let mut v: Vec<u8> = Vec::new();
            v.push(4);
            let mut x: usize = 0;
            while x < 10
                invariant
                    b.wf(),
                    x <= 10,
                    v@.len() == 1 + x * 20,
                    v@[0] == 4,
                    forall|i: int|
                        0 <= i < x * 20 ==> #[trigger] v@[1 + i] == spec_cell_byte(
                            b.cell(i / 20, i % 20),
                        ),
                decreases 10 - x,
            {
                let mut y: usize = 0;
                while y < 20
                    invariant
                        b.wf(),
                        x < 10,
                        y <= 20,
                        v@.len() == 1 + x * 20 + y,
                        v@[0] == 4,
                        forall|i: int|
                            0 <= i < x * 20 + y ==> #[trigger] v@[1 + i] == spec_cell_byte(
                                b.cell(i / 20, i % 20),
                            ),
                    decreases 20 - y,
                {
                    let c = b.tiles[x][y];
                    proof {
                        assert(c == b.cell(x as int, y as int));
                        assert(cell_ok(c));
                    }
                    let ghost prev = v@;
                    v.push(cell_byte(&c));
                    proof {
                        assert forall|i: int|
                            0 <= i < x * 20 + y + 1 implies #[trigger] v@[1 + i] == spec_cell_byte(
                            b.cell(i / 20, i % 20),
                        ) by {
                            if i < x * 20 + y {
                                assert(v@[1 + i] == prev[1 + i]);
                            } else {
                                assert(i == x * 20 + y);
                                assert(i / 20 == x as int && i % 20 == y as int);
                            }
                        }
                    }
                    y += 1;
                }
                x += 1;
            }
            proof {
                assert forall|i: int|
                    0 <= i < 201 implies v@[i] == spec_encode_message(*m)[i] by {
                    if i >= 1 {
                        assert(v@[1 + (i - 1)] == spec_cell_byte(b.cell((i - 1) / 20, (i - 1) % 20)));
                        assert(spec_encode_message(*m)[i] == spec_board_bytes(*b)[i - 1]);
                    }
                }
                assert(v@ =~= spec_encode_message(*m));
            }
            v
        },
    }
}

/// Encode a relayed move as its tagged binary payload.
pub fn encode_server_message(m: &ServerMessage) -> (r: Vec<u8>)
    ensures
        r@ == spec_encode_server_message(*m),
{
    match m {
        ServerMessage::TetrisMove(mv) => {
            let mut v: Vec<u8> = Vec::new();
            v.push(0);
            v.push(move_byte(*mv));
            proof {
                assert(v@ =~= spec_encode_server_message(*m));
            }
            v
        },
    }
}

/// Decode one frame payload.  `None` when the bytes are not the encoding of
/// any well-formed message; the caller drops such a frame.
pub fn decode_message(bytes: &Vec<u8>) -> (r: Option<ClientMessage>)
    ensures
        r matches Some(m) ==> msg_wf(m) && spec_encode_message(m) == bytes@,
        r is None ==> forall|m: ClientMessage| msg_wf(m) ==> spec_encode_message(m) != bytes@,
{
    let n = bytes.len();
    if n == 0 {
        proof {
            lemma_invalid_undecodable(bytes@);
        }
        return None;
    }
    let tag = bytes[0];
    if tag == 0 {
        if n == 1 {
            let m = ClientMessage::GameStart;
            proof {
                assert(spec_encode_message(m) =~= bytes@);
            }
            Some(m)
        } else {
            proof {
                lemma_invalid_undecodable(bytes@);
            }
            None
        }
    } else if tag == 1 {
        if n == 2 {
            match decode_move(bytes[1]) {
                Some(mv) => {
                    let m = ClientMessage::OtherTetrisMove(mv);
                    proof {
                        assert(spec_encode_message(m) =~= bytes@);
                    }
                    Some(m)
                },
                None => {
                    proof {
                        lemma_invalid_undecodable(bytes@);
                    }
                    None
                },
            }
        } else {
            proof {
                lemma_invalid_undecodable(bytes@);
            }
            None
        }
    } else if tag == 2 {
        if n == 2 {
            match decode_mode(bytes[1]) {
                Some(g) => {
                    let m = ClientMessage::GameMode(g);
                    proof {
                        assert(spec_encode_message(m) =~= bytes@);
                    }
                    Some(m)
                },
                None => {
                    proof {
                        lemma_invalid_undecodable(bytes@);
                    }
                    None
                },
            }
        } else {
            proof {
                lemma_invalid_undecodable(bytes@);
            }
            None
        }
    } else if tag == 3 {
        if n == 2 {
            let m = ClientMessage::GameEnd(bytes[1]);
            proof {
                assert(spec_encode_message(m) =~= bytes@);
            }
            Some(m)
        } else {
            proof {
                lemma_invalid_undecodable(bytes@);
            }
            None
        }
    } else if tag == 4 {
        if n != 201 {
            proof {
                lemma_invalid_undecodable(bytes@);
            }
            return None;
        }
        let mut tiles: Vec<Vec<Option<TetrisTile>>> = Vec::new();
        let mut x: usize = 0;
        while x < 10
            invariant
                bytes@.len() == 201,
                bytes@[0] == 4,
                x <= 10,
                tiles@.len() == x,
                forall|i: int| 0 <= i < x ==> (#[trigger] tiles@[i])@.len() == 20,
                forall|i: int, j: int|
                    0 <= i < x && 0 <= j < 20 ==> cell_ok(#[trigger] tiles@[i]@[j])
                        && spec_cell_byte(tiles@[i]@[j]) == bytes@[1 + i * 20 + j],
            decreases 10 - x,
        {
            let mut col: Vec<Option<TetrisTile>> = Vec::new();
            let mut y: usize = 0;
            while y < 20
                invariant
                    bytes@.len() == 201,
                    bytes@[0] == 4,
                    x < 10,
                    y <= 20,
                    col@.len() == y,
                    forall|j: int|
                        0 <= j < y ==> cell_ok(#[trigger] col@[j]) && spec_cell_byte(col@[j])
                            == bytes@[1 + x * 20 + j],
                decreases 20 - y,
            {
                let by = bytes[1 + x * 20 + y];
                if by > 6 {
                    proof {
                        assert(bytes@[1 + (x * 20 + y) as int] > 6);
                        assert(!spec_valid_encoding(bytes@));
                        lemma_invalid_undecodable(bytes@);
                    }
                    return None;
                }
                let cell: Option<TetrisTile> = if by == 0 {
                    None
                } else {
                    Some(TetrisTile { color: by - 1 })
                };
                col.push(cell);
                y += 1;
            }
            tiles.push(col);
            x += 1;
        }
        let b = TetrisBoard { tiles };
        let m = ClientMessage::BoardUpdate(b);
        proof {
            assert(b.wf());
            assert forall|i: int| 0 <= i < 201 implies spec_encode_message(m)[i] == bytes@[i] by {
                if i >= 1 {
                    let k = i - 1;
                    assert(spec_encode_message(m)[i] == spec_board_bytes(b)[k]);
                    assert(spec_board_bytes(b)[k] == spec_cell_byte(b.cell(k / 20, k % 20)));
                    assert(0 <= k / 20 < 10 && 0 <= k % 20 < 20);
                    assert(spec_cell_byte(b.tiles@[k / 20]@[k % 20]) == bytes@[1 + (k / 20) * 20 + (
                    k % 20)]);
                    assert((k / 20) * 20 + k % 20 == k);
                }
            }
            assert(spec_encode_message(m) =~= bytes@);
        }
        Some(m)
    } else {
        proof {
            lemma_invalid_undecodable(bytes@);
        }
        None
    }
}

/// Decode a relayed move.
pub fn decode_server_message(bytes: &Vec<u8>) -> (r: Option<ServerMessage>)
    ensures
        r matches Some(m) ==> spec_encode_server_message(m) == bytes@,
        r is None ==> forall|m: ServerMessage| spec_encode_server_message(m) != bytes@,
{
    if bytes.len() == 2 && bytes[0] == 0 {
        match decode_move(bytes[1]) {
            Some(mv) => {
                let m = ServerMessage::TetrisMove(mv);
                proof {
                    assert(spec_encode_server_message(m) =~= bytes@);
                }
                Some(m)
            },
            None => {
                proof {
                    assert forall|m: ServerMessage| spec_encode_server_message(m) != bytes@ by {
                        assert(spec_encode_server_message(m)[1] < 5);
                    }
                }
                None
            },
        }
    } else {
        proof {
            assert forall|m: ServerMessage| spec_encode_server_message(m) != bytes@ by {
                assert(spec_encode_server_message(m).len() == 2);
                assert(spec_encode_server_message(m)[0] == 0);
            }
        }
        None
    }
}

} // verus!
