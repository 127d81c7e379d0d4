//! The falling piece and its movement rules.
//!
//! A `CurrentPiece` caches the absolute board cells it occupies; every move
//! or rotation is validated cell by cell against the board and applied all or
//! nothing.  A blocked downward move means the piece has landed: its cells
//! are committed into the board and the piece is gone.

use crate::bag::{bag_step, random_below, TetrisPieceBuffer};
use crate::board::{in_bounds, spec_tile_empty, BoardGrid, TetrisBoard, TetrisTile};
use crate::piece::{
    is_catalog_piece, lemma_piece_cell_count, mask_cell_count, mask_count_from, spec_shape_masks,
    TetrisPiece,
};
use vstd::prelude::*;

verus! {

/// A movement command for the falling piece.
#[derive(Clone, Copy, Debug, PartialEq, Eq, Structural)]
pub enum TetrisMove {
    Left,
    Right,
    Fall,
    RotateLeft,
    RotateRight,
}

/// The absolute cells occupied by `p` at `rotation` anchored at `(px, py)`,
/// restricted to box indices at least `i`; index `i` stands for column
/// `i / 4`, row `i % 4` of the 4x4 box, so cells come in column-major order.
pub open spec fn spec_cells_from(
    p: TetrisPiece,
    rotation: int,
    px: int,
    py: int,
    i: int,
) -> Seq<(int, int)>
    decreases 16 - i,
{
    if i < 0 || i >= 16 {
        Seq::empty()
    } else {
        (if p.spec_occupied(rotation, i / 4, i % 4) {
            seq![(px + i / 4, py + i % 4)]
        } else {
            Seq::empty()
        }) + spec_cells_from(p, rotation, px, py, i + 1)
    }
}

/// All absolute cells occupied by `p` at `rotation` anchored at `(px, py)`.
pub open spec fn spec_cells(p: TetrisPiece, rotation: int, px: int, py: int) -> Seq<(int, int)> {
    spec_cells_from(p, rotation, px, py, 0)
}

/// The derived cell list has exactly as many entries as the mask has
/// occupied cells.
pub proof fn lemma_cells_from_len(p: TetrisPiece, rotation: int, px: int, py: int, i: int)
    ensures
        spec_cells_from(p, rotation, px, py, i).len() == mask_count_from(
            p.spec_mask(rotation),
            i,
        ),
    decreases 16 - i,
{
    if 0 <= i < 16 {
        lemma_cells_from_len(p, rotation, px, py, i + 1);
    }
}

/// Each derived cell lies inside the 4x4 box at the anchor, and each entry of
/// the suffix list is an entry of the full list, offset by the count before.
pub proof fn lemma_cells_from_elems(p: TetrisPiece, rotation: int, px: int, py: int, i: int)
    ensures
        forall|k: int|
            0 <= k < spec_cells_from(p, rotation, px, py, i).len() ==> {
                let c = #[trigger] spec_cells_from(p, rotation, px, py, i)[k];
                px <= c.0 < px + 4 && py <= c.1 < py + 4
            },
    decreases 16 - i,
{
    if 0 <= i < 16 {
        lemma_cells_from_elems(p, rotation, px, py, i + 1);
        let head: Seq<(int, int)> = if p.spec_occupied(rotation, i / 4, i % 4) {
            seq![(px + i / 4, py + i % 4)]
        } else {
            Seq::empty()
        };
        let rest = spec_cells_from(p, rotation, px, py, i + 1);
        assert(spec_cells_from(p, rotation, px, py, i) == head + rest);
        assert forall|k: int|
            0 <= k < spec_cells_from(p, rotation, px, py, i).len() implies {
            let c = #[trigger] spec_cells_from(p, rotation, px, py, i)[k];
            px <= c.0 < px + 4 && py <= c.1 < py + 4
        } by {
            if k < head.len() {
                assert(spec_cells_from(p, rotation, px, py, i)[k] == head[0]);
            } else {
                assert(spec_cells_from(p, rotation, px, py, i)[k] == rest[k - head.len()]);
            }
        }
    }
}

/// Moving the anchor moves every derived cell by the same amount.
pub proof fn lemma_cells_from_shift(
    p: TetrisPiece,
    rotation: int,
    px: int,
    py: int,
    dx: int,
    dy: int,
    i: int,
)
    ensures
        spec_cells_from(p, rotation, px + dx, py + dy, i).len() == spec_cells_from(
            p,
            rotation,
            px,
            py,
            i,
        ).len(),
        forall|k: int|
            0 <= k < spec_cells_from(p, rotation, px, py, i).len()
                ==> #[trigger] spec_cells_from(p, rotation, px + dx, py + dy, i)[k] == ((
            spec_cells_from(p, rotation, px, py, i)[k].0 + dx,
            spec_cells_from(p, rotation, px, py, i)[k].1 + dy,
            )),
    decreases 16 - i,
{
    if 0 <= i < 16 {
        lemma_cells_from_shift(p, rotation, px, py, dx, dy, i + 1);
    }
}

/// The mathematical state of a falling piece: its shape, quarter-turn index,
/// anchor, and color.  The occupied cells are derived from these.
pub struct PieceState {
    pub piece: TetrisPiece,
    pub rotation: int,
    pub px: int,
    pub py: int,
    pub color: u8,
}

/// The absolute cells occupied by a piece state.
pub open spec fn state_cells(s: PieceState) -> Seq<(int, int)> {
    spec_cells(s.piece, s.rotation, s.px, s.py)
}

/// Whether `(x, y)` is a free cell of the grid: on the board and unoccupied.
pub open spec fn grid_free(g: BoardGrid, x: int, y: int) -> bool {
    in_bounds(x, y) && g[x][y] is None
}

/// Whether every listed cell is free on the grid.
pub open spec fn cells_free(g: BoardGrid, cells: Seq<(int, int)>) -> bool {
    forall|k: int| 0 <= k < cells.len() ==> grid_free(g, (#[trigger] cells[k]).0, cells[k].1)
}

/// The unit offset of a shift command.
pub open spec fn move_delta(m: TetrisMove) -> (int, int) {
    match m {
        TetrisMove::Left => (-1int, 0int),
        TetrisMove::Right => (1int, 0int),
        TetrisMove::Fall => (0int, 1int),
        _ => (0int, 0int),
    }
}

/// The piece state moved by `(dx, dy)`.
pub open spec fn spec_shifted(s: PieceState, dx: int, dy: int) -> PieceState {
    PieceState { piece: s.piece, rotation: s.rotation, px: s.px + dx, py: s.py + dy, color: s.color }
}

/// The piece state turned one quarter turn; a left turn is three right
/// turns, and the index wraps after four.
pub open spec fn spec_rotated(s: PieceState, m: TetrisMove) -> PieceState {
    PieceState {
        piece: s.piece,
        rotation: (s.rotation + (if m is RotateLeft {
            3int
        } else {
            1int
        })) % 4,
        px: s.px,
        py: s.py,
        color: s.color,
    }
}

/// The grid with the piece's cells committed as locked tiles.
pub open spec fn grid_lock(g: BoardGrid, s: PieceState) -> BoardGrid {
    Seq::new(
        10,
        |x: int|
            Seq::new(
                20,
                |y: int|
                    if state_cells(s).contains((x, y)) {
                        Some(TetrisTile { color: s.color })
                    } else {
                        g[x][y]
                    },
            ),
    )
}

/// The currently falling piece: shape, anchor, quarter-turn index, color,
/// and the cached list of the absolute cells it occupies.
pub struct CurrentPiece {
    pub piece: TetrisPiece,
    pub position: (i32, i32),
    pub rotation: usize,
    pub color: u8,
    pub tiles: Vec<((i32, i32), TetrisTile)>,
}

impl CurrentPiece {
    /// The mathematical state this piece is in.
    pub open spec fn state(&self) -> PieceState {
        PieceState {
            piece: self.piece,
            rotation: self.rotation as int,
            px: self.position.0 as int,
            py: self.position.1 as int,
            color: self.color,
        }
    }

    /// The absolute cells this piece occupies.
    pub open spec fn cells(&self) -> Seq<(int, int)> {
        state_cells(self.state())
    }

    /// The piece names a catalog shape, the cached cell list matches the
    /// derived cells one for one and carries the piece's color, and every
    /// cell lies on the board.
    pub open spec fn wf(&self) -> bool {
        &&& is_catalog_piece(self.piece)
        &&& self.rotation < 4
        &&& self.color < 6
        &&& self.tiles@.len() == self.cells().len()
        &&& forall|k: int|
            0 <= k < self.tiles@.len() ==> (((#[trigger] self.tiles@[k]).0.0 as int, self.tiles@[k].0.1 as int))
                == self.cells()[k]
        &&& forall|k: int|
            0 <= k < self.tiles@.len() ==> (#[trigger] self.tiles@[k]).1.color == self.color
        &&& forall|k: int|
            0 <= k < self.cells().len() ==> in_bounds(
                (#[trigger] self.cells()[k]).0,
                self.cells()[k].1,
            )
    }

    /// The cached cells, for rendering layers.
    pub fn active_piece_cells(&self) -> (r: &Vec<((i32, i32), TetrisTile)>)
        ensures
            r@ == self.tiles@,
    {
        &self.tiles
    }
}

/// A well-formed piece occupies four cells, so its anchor stays close to the
/// board.
pub proof fn lemma_wf_position_bounds(cp: CurrentPiece)
    requires
        cp.wf(),
    ensures
        cp.cells().len() == 4,
        -3 <= cp.position.0 as int <= 9,
        -3 <= cp.position.1 as int <= 19,
{
    lemma_piece_cell_count(cp.piece, cp.rotation as int);
    lemma_cells_from_len(
        cp.piece,
        cp.rotation as int,
        cp.position.0 as int,
        cp.position.1 as int,
        0,
    );
    lemma_cells_from_elems(
        cp.piece,
        cp.rotation as int,
        cp.position.0 as int,
        cp.position.1 as int,
        0,
    );
    assert(in_bounds(cp.cells()[0].0, cp.cells()[0].1));
}

/// Build the cached cell list for a piece at the given rotation and anchor.
fn build_tiles(piece: &TetrisPiece, rotation: usize, px: i32, py: i32, color: u8) -> (r: Vec<
    ((i32, i32), TetrisTile),
>)
    requires
        rotation < 4,
        -3 <= px <= 9,
        -3 <= py <= 19,
    ensures
        r@.len() == spec_cells(*piece, rotation as int, px as int, py as int).len(),
        forall|k: int|
            0 <= k < r@.len() ==> (((#[trigger] r@[k]).0.0 as int, r@[k].0.1 as int)) == spec_cells(
                *piece,
                rotation as int,
                px as int,
                py as int,
            )[k],
        forall|k: int| 0 <= k < r@.len() ==> (#[trigger] r@[k]).1.color == color,
{
    let ghost all = spec_cells(*piece, rotation as int, px as int, py as int);
    let mut tiles: Vec<((i32, i32), TetrisTile)> = Vec::new();
    let mut i: usize = 0;
    while i < 16
        invariant
            rotation < 4,
            -3 <= px <= 9,
            -3 <= py <= 19,
            i <= 16,
            all == spec_cells(*piece, rotation as int, px as int, py as int),
            tiles@.len() + spec_cells_from(*piece, rotation as int, px as int, py as int, i as int).len()
                == all.len(),
            forall|j: int|
                0 <= j < spec_cells_from(
                    *piece,
                    rotation as int,
                    px as int,
                    py as int,
                    i as int,
                ).len() ==> #[trigger] spec_cells_from(
                    *piece,
                    rotation as int,
                    px as int,
                    py as int,
                    i as int,
                )[j] == all[tiles@.len() + j],
            forall|k: int|
                0 <= k < tiles@.len() ==> (((#[trigger] tiles@[k]).0.0 as int, tiles@[k].0.1 as int))
                    == all[k],
            forall|k: int| 0 <= k < tiles@.len() ==> (#[trigger] tiles@[k]).1.color == color,
        decreases 16 - i,
    {
        let ghost rest = spec_cells_from(*piece, rotation as int, px as int, py as int, i as int);
        let ghost rest2 = spec_cells_from(
            *piece,
            rotation as int,
            px as int,
            py as int,
            i as int + 1,
        );
        let x = (i / 4) as u8;
        let y = (i % 4) as u8;
        if piece.value(rotation, x, y) {
            proof {
                assert(rest == seq![(px as int + x as int, py as int + y as int)] + rest2);
                assert(rest[0] == (px as int + x as int, py as int + y as int));
                assert(all[tiles@.len() as int] == (px as int + x as int, py as int + y as int));
                assert forall|j: int|
                    0 <= j < rest2.len() implies #[trigger] rest2[j] == all[tiles@.len() + 1
                    + j] by {
                    assert(rest[j + 1] == rest2[j]);
                }
            }
            tiles.push(((px + x as i32, py + y as i32), TetrisTile { color }));
        } else {
            proof {
                assert(rest == rest2);
            }
        }
        i += 1;
    }
    tiles
}

/// Whether every cached cell is free on the board.
fn tiles_all_empty(board: &TetrisBoard, tiles: &Vec<((i32, i32), TetrisTile)>) -> (r: bool)
    requires
        board.wf(),
    ensures
        r == (forall|k: int|
            0 <= k < tiles@.len() ==> spec_tile_empty(
                board,
                (#[trigger] tiles@[k]).0.0 as int,
                tiles@[k].0.1 as int,
            )),
{
    let mut k: usize = 0;
    let mut ok = true;
    while k < tiles.len()
        invariant
            board.wf(),
            k <= tiles@.len(),
            ok == (forall|j: int|
                0 <= j < k ==> spec_tile_empty(
                    board,
                    (#[trigger] tiles@[j]).0.0 as int,
                    tiles@[j].0.1 as int,
                )),
        decreases tiles@.len() - k,
    {
        let t = tiles[k];
        if !board.tile_empty(t.0.0, t.0.1) {
            ok = false;
        }
        k += 1;
    }
    ok
}

/// Free cells of the grid and free cells of the board are the same thing.
proof fn lemma_grid_free_is_tile_empty(board: &TetrisBoard, x: int, y: int)
    ensures
        grid_free(board.grid(), x, y) == spec_tile_empty(board, x, y),
{
    if in_bounds(x, y) {
        assert(board.grid()[x] == board.tiles@[x]@);
    }
}

/// A cached cell list that matches its derived cells is free on the board
/// exactly when the derived cells are free on the grid.
proof fn lemma_tiles_free_iff(
    board: &TetrisBoard,
    tiles: Seq<((i32, i32), TetrisTile)>,
    cells: Seq<(int, int)>,
)
    requires
        tiles.len() == cells.len(),
        forall|k: int|
            0 <= k < tiles.len() ==> (((#[trigger] tiles[k]).0.0 as int, tiles[k].0.1 as int))
                == cells[k],
    ensures
        (forall|k: int|
            0 <= k < tiles.len() ==> spec_tile_empty(
                board,
                (#[trigger] tiles[k]).0.0 as int,
                tiles[k].0.1 as int,
            )) == cells_free(board.grid(), cells),
{
    if cells_free(board.grid(), cells) {
        assert forall|k: int|
            0 <= k < tiles.len() implies spec_tile_empty(
            board,
            (#[trigger] tiles[k]).0.0 as int,
            tiles[k].0.1 as int,
        ) by {
            assert(grid_free(board.grid(), (cells[k]).0, cells[k].1));
            lemma_grid_free_is_tile_empty(board, cells[k].0, cells[k].1);
        }
    }
    if forall|k: int|
        0 <= k < tiles.len() ==> spec_tile_empty(
            board,
            (#[trigger] tiles[k]).0.0 as int,
            tiles[k].0.1 as int,
        ) {
        assert forall|k: int|
            0 <= k < cells.len() implies grid_free(
            board.grid(),
            (#[trigger] cells[k]).0,
            cells[k].1,
        ) by {
            assert(spec_tile_empty(board, tiles[k].0.0 as int, tiles[k].0.1 as int));
            lemma_grid_free_is_tile_empty(board, cells[k].0, cells[k].1);
        }
    }
}

/// Place a new piece at the spawn anchor, column 3 of the top row.  Returns
/// `None` (a top-out, the terminal loss condition) when any of the piece's
/// cells is already blocked; the board is not touched either way.
pub fn spawn(piece: TetrisPiece, color: u8, board: &TetrisBoard) -> (r: Option<CurrentPiece>)
    requires
        is_catalog_piece(piece),
        color < 6,
        board.wf(),
    ensures
        r is Some <==> cells_free(board.grid(), spec_cells(piece, 0, 3, 0)),
        r matches Some(cp) ==> cp.wf() && cp.piece == piece && cp.color == color && cp.position.0
            == 3 && cp.position.1 == 0 && cp.rotation == 0,
{
    let tiles = build_tiles(&piece, 0, 3, 0, color);
    let ghost cells = spec_cells(piece, 0, 3, 0);
    let free = tiles_all_empty(board, &tiles);
    proof {
        lemma_tiles_free_iff(board, tiles@, cells);
    }
    if free {
        let cp = CurrentPiece { piece, position: (3, 0), rotation: 0, color, tiles };
        proof {
            assert forall|k: int|
                0 <= k < cp.cells().len() implies in_bounds(
                (#[trigger] cp.cells()[k]).0,
                cp.cells()[k].1,
            ) by {
                assert(grid_free(board.grid(), cells[k].0, cells[k].1));
            }
        }
        Some(cp)
    } else {
        None
    }
}

/// Try to shift the piece one cell left, right, or down.  The move is
/// all-or-nothing: if any target cell is off the board or occupied, nothing
/// changes.  A rejected `Fall` means the piece has landed.
pub fn try_move(cp: &mut CurrentPiece, board: &TetrisBoard, m: TetrisMove) -> (moved: bool)
    requires
        old(cp).wf(),
        board.wf(),
        m is Left || m is Right || m is Fall,
    ensures
        final(cp).wf(),
        moved == cells_free(
            board.grid(),
            state_cells(spec_shifted(old(cp).state(), move_delta(m).0, move_delta(m).1)),
        ),
        moved ==> final(cp).state() == spec_shifted(
            old(cp).state(),
            move_delta(m).0,
            move_delta(m).1,
        ),
        !moved ==> *final(cp) == *old(cp),
{
    proof {
        lemma_wf_position_bounds(*cp);
    }
    let (dx, dy): (i32, i32) = match m {
        TetrisMove::Left => (-1, 0),
        TetrisMove::Right => (1, 0),
        _ => (0, 1),
    };
    let ghost target = spec_shifted(old(cp).state(), dx as int, dy as int);
    proof {
        lemma_cells_from_shift(
            cp.piece,
            cp.rotation as int,
            cp.position.0 as int,
            cp.position.1 as int,
            dx as int,
            dy as int,
            0,
        );
        assert(state_cells(target).len() == cp.tiles@.len());
    }
    let mut k: usize = 0;
    let mut ok = true;
    while k < cp.tiles.len()
        invariant
            board.wf(),
            old(cp).wf(),
            *cp == *old(cp),
            -2 <= dx <= 2,
            -2 <= dy <= 2,
            k <= cp.tiles@.len(),
            ok == (forall|j: int|
                0 <= j < k ==> spec_tile_empty(
                    board,
                    (#[trigger] cp.tiles@[j]).0.0 as int + dx as int,
                    cp.tiles@[j].0.1 as int + dy as int,
                )),
        decreases cp.tiles@.len() - k,
    {
        let t = cp.tiles[k];
        proof {
            assert(in_bounds(old(cp).cells()[k as int].0, old(cp).cells()[k as int].1));
        }
        if !board.tile_empty(t.0.0 + dx, t.0.1 + dy) {
            ok = false;
        }
        k += 1;
    }
    proof {
        let shifted_cells = state_cells(target);
        if ok {
            assert forall|j: int|
                0 <= j < shifted_cells.len() implies grid_free(
                board.grid(),
                (#[trigger] shifted_cells[j]).0,
                shifted_cells[j].1,
            ) by {
                assert(spec_tile_empty(
                    board,
                    cp.tiles@[j].0.0 as int + dx as int,
                    cp.tiles@[j].0.1 as int + dy as int,
                ));
                assert(shifted_cells[j] == (
                    old(cp).cells()[j].0 + dx as int,
                    old(cp).cells()[j].1 + dy as int,
                ));
                lemma_grid_free_is_tile_empty(board, shifted_cells[j].0, shifted_cells[j].1);
            }
        } else {
            let j = choose|j: int|
                0 <= j < cp.tiles@.len() && !spec_tile_empty(
                    board,
                    (#[trigger] cp.tiles@[j]).0.0 as int + dx as int,
                    cp.tiles@[j].0.1 as int + dy as int,
                );
            assert(shifted_cells[j] == (
                old(cp).cells()[j].0 + dx as int,
                old(cp).cells()[j].1 + dy as int,
            ));
            lemma_grid_free_is_tile_empty(board, shifted_cells[j].0, shifted_cells[j].1);
            assert(!grid_free(board.grid(), shifted_cells[j].0, shifted_cells[j].1));
        }
    }
    if ok {
        let ghost orig = cp.tiles@;
        let mut k2: usize = 0;
        while k2 < cp.tiles.len()
            invariant
                old(cp).wf(),
                -2 <= dx <= 2,
                -2 <= dy <= 2,
                cp.piece == old(cp).piece,
                cp.position == old(cp).position,
                cp.rotation == old(cp).rotation,
                cp.color == old(cp).color,
                orig == old(cp).tiles@,
                k2 <= cp.tiles@.len(),
                cp.tiles@.len() == orig.len(),
                forall|j: int| k2 <= j < orig.len() ==> (#[trigger] cp.tiles@[j]) == orig[j],
                forall|j: int|
                    0 <= j < k2 ==> (#[trigger] cp.tiles@[j]) == ((
                        (orig[j].0.0 + dx) as i32,
                        (orig[j].0.1 + dy) as i32,
                    ), orig[j].1),
            decreases cp.tiles@.len() - k2,
        {
            let t = cp.tiles[k2];
            proof {
                assert(in_bounds(old(cp).cells()[k2 as int].0, old(cp).cells()[k2 as int].1));
            }
            cp.tiles[k2] = ((t.0.0 + dx, t.0.1 + dy), t.1);
            k2 += 1;
        }
        cp.position = (cp.position.0 + dx, cp.position.1 + dy);
        proof {
            assert(cp.state() == target);
            assert forall|j: int|
                0 <= j < cp.tiles@.len() implies (((#[trigger] cp.tiles@[j]).0.0 as int, cp.tiles@[j].0.1 as int))
                == cp.cells()[j] by {
                assert(cp.cells()[j] == (
                    old(cp).cells()[j].0 + dx as int,
                    old(cp).cells()[j].1 + dy as int,
                ));
                assert(in_bounds(old(cp).cells()[j].0, old(cp).cells()[j].1));
            }
            assert forall|j: int|
                0 <= j < cp.cells().len() implies in_bounds(
                (#[trigger] cp.cells()[j]).0,
                cp.cells()[j].1,
            ) by {
                assert(grid_free(board.grid(), cp.cells()[j].0, cp.cells()[j].1));
            }
        }
        true
    } else {
        false
    }
}

/// Try to turn the piece one quarter turn around the same anchor, with no
/// wall-kick search.  If any resulting cell is off the board or occupied the
/// rotation is rejected and nothing changes.
pub fn try_rotate(cp: &mut CurrentPiece, board: &TetrisBoard, m: TetrisMove) -> (rotated: bool)
    requires
        old(cp).wf(),
        board.wf(),
        m is RotateLeft || m is RotateRight,
    ensures
        final(cp).wf(),
        rotated == cells_free(board.grid(), state_cells(spec_rotated(old(cp).state(), m))),
        rotated ==> final(cp).state() == spec_rotated(old(cp).state(), m),
        !rotated ==> *final(cp) == *old(cp),
{
    proof {
        lemma_wf_position_bounds(*cp);
    }
    let step: usize = match m {
        TetrisMove::RotateLeft => 3,
        _ => 1,
    };
    let new_rot = (cp.rotation + step) % 4;
    let ghost target = spec_rotated(old(cp).state(), m);
    proof {
        assert(new_rot as int == target.rotation);
    }
    let cand = build_tiles(&cp.piece, new_rot, cp.position.0, cp.position.1, cp.color);
    let free = tiles_all_empty(board, &cand);
    proof {
        lemma_tiles_free_iff(board, cand@, state_cells(target));
    }
    if free {
        cp.tiles = cand;
        cp.rotation = new_rot;
        proof {
            assert(cp.state() == target);
            assert forall|j: int|
                0 <= j < cp.cells().len() implies in_bounds(
                (#[trigger] cp.cells()[j]).0,
                cp.cells()[j].1,
            ) by {
                assert(grid_free(board.grid(), cp.cells()[j].0, cp.cells()[j].1));
            }
        }
        true
    } else {
        false
    }
}

/// Membership in one more prefix element.
proof fn lemma_take_push_contains(s: Seq<(int, int)>, k: int, v: (int, int))
    requires
        0 <= k < s.len(),
    ensures
        s.take(k + 1).contains(v) <==> (s.take(k).contains(v) || v == s[k]),
{
    assert(s.take(k + 1) =~= s.take(k).push(s[k]));
    if s.take(k + 1).contains(v) {
        let i = choose|i: int| 0 <= i < k + 1 && #[trigger] s.take(k + 1)[i] == v;
        if i < k {
            assert(s.take(k)[i] == v);
        }
    }
    if s.take(k).contains(v) {
        let i = choose|i: int| 0 <= i < k && #[trigger] s.take(k)[i] == v;
        assert(s.take(k + 1)[i] == v);
    }
    if v == s[k] {
        assert(s.take(k + 1)[k] == v);
    }
}

/// Commit every cell of the piece into the board as a locked tile.  This
/// ends the piece's fall; the caller drops the piece afterwards.
pub fn lock_piece(cp: &CurrentPiece, board: &mut TetrisBoard)
    requires
        cp.wf(),
        old(board).wf(),
    ensures
        final(board).wf(),
        final(board).grid() == grid_lock(old(board).grid(), cp.state()),
{
    let ghost cells = cp.cells();
    let mut k: usize = 0;
    while k < cp.tiles.len()
        invariant
            cp.wf(),
            board.wf(),
            cells == cp.cells(),
            k <= cp.tiles@.len(),
            forall|x: int, y: int|
                in_bounds(x, y) ==> #[trigger] board.cell(x, y) == (if cells.take(
                    k as int,
                ).contains((x, y)) {
                    Some(TetrisTile { color: cp.color })
                } else {
                    old(board).cell(x, y)
                }),
        decreases cp.tiles@.len() - k,
    {
        let t = cp.tiles[k];
        let ghost before = *board;
        proof {
            assert(((t.0.0 as int, t.0.1 as int)) == cells[k as int]);
            assert(in_bounds(cells[k as int].0, cells[k as int].1));
            assert(t.1 == TetrisTile { color: cp.color });
        }
        board.set(t.0.0, t.0.1, Some(t.1));
        proof {
            assert forall|x: int, y: int| in_bounds(x, y) implies #[trigger] board.cell(x, y) == (
            if cells.take(k as int + 1).contains((x, y)) {
                Some(TetrisTile { color: cp.color })
            } else {
                old(board).cell(x, y)
            }) by {
                lemma_take_push_contains(cells, k as int, (x, y));
                if x == t.0.0 as int && y == t.0.1 as int {
                    assert(cells.take(k as int + 1).contains((x, y))) by {
                        assert((x, y) == cells[k as int]);
                    }
                } else {
                    assert(board.cell(x, y) == before.cell(x, y));
                    assert((x, y) != cells[k as int]);
                }
            }
        }
        k += 1;
    }
    proof {
        assert(cells.take(cells.len() as int) =~= cells);
        assert forall|x: int|
            0 <= x < 10 implies #[trigger] board.grid()[x] =~= grid_lock(
            old(board).grid(),
            cp.state(),
        )[x] by {
            assert forall|y: int|
                0 <= y < 20 implies board.grid()[x][y] == grid_lock(old(board).grid(), cp.state())[x][y] by {
                assert(board.grid()[x][y] == board.cell(x, y));
                assert(old(board).grid()[x][y] == old(board).cell(x, y));
            }
        }
        assert(board.grid() =~~= grid_lock(old(board).grid(), cp.state()));
    }
}

/// One movement command applied to a piece state against a board grid: the
/// piece state afterwards (`None` when the piece locked) and the grid
/// afterwards.
pub open spec fn spec_step(s: PieceState, g: BoardGrid, m: TetrisMove) -> (Option<PieceState>, BoardGrid) {
    match m {
        TetrisMove::Left | TetrisMove::Right | TetrisMove::Fall => {
            let s2 = spec_shifted(s, move_delta(m).0, move_delta(m).1);
            if cells_free(g, state_cells(s2)) {
                (Some(s2), g)
            } else if m is Fall {
                (None, grid_lock(g, s))
            } else {
                (Some(s), g)
            }
        },
        TetrisMove::RotateLeft | TetrisMove::RotateRight => {
            let s2 = spec_rotated(s, m);
            if cells_free(g, state_cells(s2)) {
                (Some(s2), g)
            } else {
                (Some(s), g)
            }
        },
    }
}

/// A queue of movement commands applied in order; a lock discards whatever
/// follows it.
pub open spec fn spec_process(s: PieceState, g: BoardGrid, ms: Seq<TetrisMove>) -> (
    Option<PieceState>,
    BoardGrid,
)
    decreases ms.len(),
{
    if ms.len() == 0 {
        (Some(s), g)
    } else {
        let r = spec_step(s, g, ms[0]);
        match r.0 {
            None => (None, r.1),
            Some(s2) => spec_process(s2, r.1, ms.skip(1)),
        }
    }
}

/// Apply a queue of movement commands in order, as the game loop does each
/// tick.  Shifts and turns are all-or-nothing; the first blocked downward
/// move locks the piece into the board and discards the rest of the queue.
/// Returns the piece unless it locked; `None` means the board changed and a
/// snapshot should go to the peer.
pub fn move_piece(cp: CurrentPiece, board: &mut TetrisBoard, moves: &Vec<TetrisMove>) -> (r: Option<
    CurrentPiece,
>)
    requires
        cp.wf(),
        old(board).wf(),
    ensures
        final(board).wf(),
        final(board).grid() == spec_process(cp.state(), old(board).grid(), moves@).1,
        match r {
            Some(c2) => c2.wf() && spec_process(cp.state(), old(board).grid(), moves@).0 == Some(
                c2.state(),
            ),
            None => spec_process(cp.state(), old(board).grid(), moves@).0 is None,
        },
{
    let ghost s0 = cp.state();
    let ghost g0 = old(board).grid();
    let mut cur = cp;
    let mut locked = false;
    let mut i: usize = 0;
    proof {
        assert(moves@.skip(0) =~= moves@);
    }
    while i < moves.len() && !locked
        invariant
            board.wf(),
            i <= moves@.len(),
            !locked ==> cur.wf() && spec_process(s0, g0, moves@) == spec_process(
                cur.state(),
                board.grid(),
                moves@.skip(i as int),
            ),
            locked ==> spec_process(s0, g0, moves@) == (None::<PieceState>, board.grid()),
        decreases moves@.len() - i,
    {
        let m = moves[i];
        let ghost s_pre = cur.state();
        let ghost g_pre = board.grid();
        let ghost ms = moves@.skip(i as int);
        proof {
            assert(ms.len() > 0);
            assert(ms[0] == moves@[i as int]);
            assert(ms.skip(1) =~= moves@.skip(i as int + 1));
        }
        match m {
            TetrisMove::Left | TetrisMove::Right | TetrisMove::Fall => {
                let moved = try_move(&mut cur, board, m);
                if !moved && matches!(m, TetrisMove::Fall) {
                    lock_piece(&cur, board);
                    locked = true;
                    proof {
                        assert(cur.state() == s_pre);
                        assert(spec_step(s_pre, g_pre, m) == (
                            None::<PieceState>,
                            grid_lock(g_pre, s_pre),
                        ));
                        assert(board.grid() == grid_lock(g_pre, s_pre));
                        assert(spec_process(s_pre, g_pre, ms) == (
                            None::<PieceState>,
                            board.grid(),
                        ));
                    }
                } else {
                    proof {
                        assert(spec_step(s_pre, g_pre, m) == (Some(cur.state()), g_pre));
                        assert(board.grid() == g_pre);
                        assert(spec_process(s_pre, g_pre, ms) == spec_process(
                            cur.state(),
                            board.grid(),
                            ms.skip(1),
                        ));
                    }
                }
            },
            _ => {
                let _rotated = try_rotate(&mut cur, board, m);
                proof {
                    assert(spec_step(s_pre, g_pre, m) == (Some(cur.state()), g_pre));
                    assert(board.grid() == g_pre);
                    assert(spec_process(s_pre, g_pre, ms) == spec_process(
                        cur.state(),
                        board.grid(),
                        ms.skip(1),
                    ));
                }
            },
        }
        i += 1;
    }
    proof {
        if !locked {
            assert(moves@.skip(i as int) =~= Seq::<TetrisMove>::empty());
            assert(spec_process(cur.state(), board.grid(), Seq::<TetrisMove>::empty()) == (
                Some(cur.state()),
                board.grid(),
            ));
        }
    }
    if locked {
        None
    } else {
        Some(cur)
    }
}

/// Draw the next piece from the bag and spawn it in a random color at the
/// spawn anchor.  `None` is a top-out: the drawn piece did not fit, the
/// terminal loss condition.
pub fn spawn_piece(buf: &mut TetrisPieceBuffer, board: &TetrisBoard) -> (r: Option<CurrentPiece>)
    requires
        old(buf).wf(),
        board.wf(),
    ensures
        final(buf).wf(),
        r matches Some(cp) ==> cp.wf() && cp.position.0 == 3 && cp.position.1 == 0 && cp.rotation
            == 0 && cells_free(board.grid(), spec_cells(cp.piece, 0, 3, 0)) && bag_step(
            old(buf)@,
            final(buf)@,
            cp.piece,
        ),
        r is None ==> (exists|p: TetrisPiece|
            is_catalog_piece(p) && !cells_free(board.grid(), spec_cells(p, 0, 3, 0)) && bag_step(
                old(buf)@,
                final(buf)@,
                p,
            )),
{
    let piece = buf.pop();
    let color = random_below(6);
    spawn(piece, color, board)
}

/// Four successful quarter turns in one direction return the piece to its
/// original state: rotation is a cyclic group of order four.
pub proof fn lemma_four_rotations_identity(s: PieceState, m: TetrisMove)
    requires
        m is RotateLeft || m is RotateRight,
        0 <= s.rotation < 4,
    ensures
        spec_rotated(spec_rotated(spec_rotated(spec_rotated(s, m), m), m), m) == s,
{
}

} // verus!
