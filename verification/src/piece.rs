//! The catalog of the seven tetromino shapes.
//!
//! Each shape is a set of four 16-bit masks, one per quarter turn.  A mask
//! describes a 4x4 bounding box row by row, most significant bit first: bit
//! `15 - (y * 4 + x)` is set when the cell at column `x`, row `y` is occupied.

use vstd::prelude::*;

verus! {

/// How many distinct shapes the catalog holds.
pub const PIECE_KINDS: u8 = 7;

/// One tetromino shape: an occupancy mask for each of the four rotations.
#[derive(Clone, Debug)]
pub struct TetrisPiece {
    pub data: [u16; 4],
}

/// Whether bit `k` (counting from the least significant end) of `m` is set,
/// written as a table of divisions by fixed powers of two so that concrete
/// values reduce without any bit-level reasoning.
pub open spec fn mask_bit(m: u16, k: int) -> bool
    recommends
        0 <= k < 16,
{
    if k == 0 {
        (m as int) % 2 == 1
    } else if k == 1 {
        ((m as int) / 2) % 2 == 1
    } else if k == 2 {
        ((m as int) / 4) % 2 == 1
    } else if k == 3 {
        ((m as int) / 8) % 2 == 1
    } else if k == 4 {
        ((m as int) / 16) % 2 == 1
    } else if k == 5 {
        ((m as int) / 32) % 2 == 1
    } else if k == 6 {
        ((m as int) / 64) % 2 == 1
    } else if k == 7 {
        ((m as int) / 128) % 2 == 1
    } else if k == 8 {
        ((m as int) / 256) % 2 == 1
    } else if k == 9 {
        ((m as int) / 512) % 2 == 1
    } else if k == 10 {
        ((m as int) / 1024) % 2 == 1
    } else if k == 11 {
        ((m as int) / 2048) % 2 == 1
    } else if k == 12 {
        ((m as int) / 4096) % 2 == 1
    } else if k == 13 {
        ((m as int) / 8192) % 2 == 1
    } else if k == 14 {
        ((m as int) / 16384) % 2 == 1
    } else if k == 15 {
        ((m as int) / 32768) % 2 == 1
    } else {
        false
    }
}

/// Whether the cell at column `x`, row `y` of the 4x4 box described by mask
/// `m` is occupied.  Row-major, most significant bit first.
pub open spec fn spec_mask_occupied(m: u16, x: int, y: int) -> bool
    recommends
        0 <= x < 4,
        0 <= y < 4,
{
    mask_bit(m, 15 - (y * 4 + x))
}

/// How many of the 16 cells of mask `m` with linear index at least `i` are
/// occupied; index `i` stands for column `i / 4`, row `i % 4`.
pub open spec fn mask_count_from(m: u16, i: int) -> int
    decreases 16 - i,
{
    if i < 0 || i >= 16 {
        0
    } else {
        (if spec_mask_occupied(m, i / 4, i % 4) {
            1int
        } else {
            0int
        }) + mask_count_from(m, i + 1)
    }
}

/// How many cells of mask `m` are occupied.
pub open spec fn mask_cell_count(m: u16) -> int {
    mask_count_from(m, 0)
}

/// The four rotation masks of the shape numbered `id`, in rotation order.
pub open spec fn spec_shape_masks(id: int) -> Seq<u16> {
    if id == 0 {
        seq![0x4640u16, 0x0E40u16, 0x4C40u16, 0x4E00u16]  // 'T'
    } else if id == 1 {
        seq![0x8C40u16, 0x6C00u16, 0x8C40u16, 0x6C00u16]  // 'S'
    } else if id == 2 {
        seq![0x4C80u16, 0xC600u16, 0x4C80u16, 0xC600u16]  // 'Z'
    } else if id == 3 {
        seq![0x4444u16, 0x0F00u16, 0x4444u16, 0x0F00u16]  // 'I'
    } else if id == 4 {
        seq![0x44C0u16, 0x8E00u16, 0xC880u16, 0xE200u16]  // 'J'
    } else if id == 5 {
        seq![0x88C0u16, 0xE800u16, 0xC440u16, 0x2E00u16]  // 'L'
    } else {
        seq![0xCC00u16, 0xCC00u16, 0xCC00u16, 0xCC00u16]  // 'O'
    }
}

/// Whether `p` is one of the seven catalog shapes.
pub open spec fn is_catalog_piece(p: TetrisPiece) -> bool {
    exists|id: int| 0 <= id < 7 && p.data@ == spec_shape_masks(id)
}

impl TetrisPiece {
    /// The mask that describes this shape at the given rotation; the rotation
    /// index counts quarter turns and wraps around after four.
    pub open spec fn spec_mask(&self, rotation: int) -> u16
        recommends
            0 <= rotation,
    {
        self.data@[rotation % 4]
    }

    /// Whether the cell at column `x`, row `y` of this shape's 4x4 box is
    /// occupied at the given rotation.
    pub open spec fn spec_occupied(&self, rotation: int, x: int, y: int) -> bool
        recommends
            0 <= rotation,
            0 <= x < 4,
            0 <= y < 4,
    {
        spec_mask_occupied(self.spec_mask(rotation), x, y)
    }

    pub fn new(data: [u16; 4]) -> (r: Self)
        ensures
            r.data == data,
    {
        Self { data }
    }

    /// Whether the cell at column `x`, row `y` is occupied at the given
    /// rotation (taken modulo 4).
    pub fn value(&self, rotation: usize, x: u8, y: u8) -> (r: bool)
        requires
            x < 4,
            y < 4,
        ensures
            r == self.spec_occupied(rotation as int, x as int, y as int),
    {
        let m: u16 = self.data[rotation % 4];
        let k: u16 = 15 - (y as u16 * 4 + x as u16);
        mask_bit_exec(m, k)
    }
}

/// Whether bit `k` of `m` is set.
fn mask_bit_exec(m: u16, k: u16) -> (r: bool)
    requires
        k < 16,
    ensures
        r == mask_bit(m, k as int),
{
    if k == 0 {
        m % 2 == 1
    } else if k == 1 {
        (m / 2) % 2 == 1
    } else if k == 2 {
        (m / 4) % 2 == 1
    } else if k == 3 {
        (m / 8) % 2 == 1
    } else if k == 4 {
        (m / 16) % 2 == 1
    } else if k == 5 {
        (m / 32) % 2 == 1
    } else if k == 6 {
        (m / 64) % 2 == 1
    } else if k == 7 {
        (m / 128) % 2 == 1
    } else if k == 8 {
        (m / 256) % 2 == 1
    } else if k == 9 {
        (m / 512) % 2 == 1
    } else if k == 10 {
        (m / 1024) % 2 == 1
    } else if k == 11 {
        (m / 2048) % 2 == 1
    } else if k == 12 {
        (m / 4096) % 2 == 1
    } else if k == 13 {
        (m / 8192) % 2 == 1
    } else if k == 14 {
        (m / 16384) % 2 == 1
    } else {
        (m / 32768) % 2 == 1
    }
}

/// The catalog lookup: the shape numbered `id`.
pub fn shape(id: u8) -> (r: TetrisPiece)
    requires
        id < 7,
    ensures
        r.data@ == spec_shape_masks(id as int),
        is_catalog_piece(r),
{
    let r = if id == 0 {
        TetrisPiece { data: [0x4640, 0x0E40, 0x4C40, 0x4E00] }
    } else if id == 1 {
        TetrisPiece { data: [0x8C40, 0x6C00, 0x8C40, 0x6C00] }
    } else if id == 2 {
        TetrisPiece { data: [0x4C80, 0xC600, 0x4C80, 0xC600] }
    } else if id == 3 {
        TetrisPiece { data: [0x4444, 0x0F00, 0x4444, 0x0F00] }
    } else if id == 4 {
        TetrisPiece { data: [0x44C0, 0x8E00, 0xC880, 0xE200] }
    } else if id == 5 {
        TetrisPiece { data: [0x88C0, 0xE800, 0xC440, 0x2E00] }
    } else {
        TetrisPiece { data: [0xCC00, 0xCC00, 0xCC00, 0xCC00] }
    };
    proof {
        assert(r.data@ =~= spec_shape_masks(id as int));
    }
    r
}

/// Every catalog mask has exactly four occupied cells.
#[verifier::rlimit(60)]
pub proof fn lemma_catalog_cell_count(id: int, rot: int)
    requires
        0 <= id < 7,
        0 <= rot < 4,
    ensures
        mask_cell_count(spec_shape_masks(id)[rot]) == 4,
{
    reveal_with_fuel(mask_count_from, 17);
    if id == 0 {
        assert(mask_cell_count(0x4640u16) == 4);
        assert(mask_cell_count(0x0E40u16) == 4);
        assert(mask_cell_count(0x4C40u16) == 4);
        assert(mask_cell_count(0x4E00u16) == 4);
    } else if id == 1 {
        assert(mask_cell_count(0x8C40u16) == 4);
        assert(mask_cell_count(0x6C00u16) == 4);
    } else if id == 2 {
        assert(mask_cell_count(0x4C80u16) == 4);
        assert(mask_cell_count(0xC600u16) == 4);
    } else if id == 3 {
        assert(mask_cell_count(0x4444u16) == 4);
        assert(mask_cell_count(0x0F00u16) == 4);
    } else if id == 4 {
        assert(mask_cell_count(0x44C0u16) == 4);
        assert(mask_cell_count(0x8E00u16) == 4);
        assert(mask_cell_count(0xC880u16) == 4);
        assert(mask_cell_count(0xE200u16) == 4);
    } else if id == 5 {
        assert(mask_cell_count(0x88C0u16) == 4);
        assert(mask_cell_count(0xE800u16) == 4);
        assert(mask_cell_count(0xC440u16) == 4);
        assert(mask_cell_count(0x2E00u16) == 4);
    } else {
        assert(mask_cell_count(0xCC00u16) == 4);
    }
}

/// Every catalog shape occupies exactly four cells in every rotation.
pub proof fn lemma_piece_cell_count(p: TetrisPiece, rotation: int)
    requires
        is_catalog_piece(p),
        0 <= rotation,
    ensures
        mask_cell_count(p.spec_mask(rotation)) == 4,
{
    let id = choose|id: int| 0 <= id < 7 && p.data@ == spec_shape_masks(id);
    lemma_catalog_cell_count(id, rotation % 4);
}

/// Rotation is cyclic with period four: after four quarter turns every cell
/// is back to its original occupancy.
pub proof fn lemma_rotation_period(p: TetrisPiece, rotation: int, x: int, y: int)
    requires
        0 <= rotation,
    ensures
        p.spec_occupied(rotation + 4, x, y) == p.spec_occupied(rotation, x, y),
{
    assert((rotation + 4) % 4 == rotation % 4);
}

} // verus!

