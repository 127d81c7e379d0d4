//! The 10x20 playing field: locked tiles, bounds-checked queries, and line
//! clearing.
//!
//! The grid is kept column-major, as a vector of 10 columns of 20 optional
//! tiles.  Out-of-bounds coordinates are treated as blocked, never as an
//! error, so that movement stops at the walls and the floor.

use vstd::prelude::*;

verus! {

/// One locked cell: its color, an index into the caller's palette of six.
#[derive(Clone, Copy, Debug, PartialEq, Eq, Structural)]
pub struct TetrisTile {
    pub color: u8,
}

/// The board contents as a mathematical value: 10 columns of 20 cells.
pub type BoardGrid = Seq<Seq<Option<TetrisTile>>>;

/// Whether an optional cell is admissible: a filled cell's color names one of
/// the six palette entries.
pub open spec fn cell_ok(c: Option<TetrisTile>) -> bool {
    match c {
        Some(t) => t.color < 6,
        None => true,
    }
}

/// Whether column `x`, row `y` lies on the board.
pub open spec fn in_bounds(x: int, y: int) -> bool {
    0 <= x < 10 && 0 <= y < 20
}

/// The playing field of one player.
pub struct TetrisBoard {
    pub tiles: Vec<Vec<Option<TetrisTile>>>,
}

impl TetrisBoard {
    /// The cell at column `x`, row `y`.
    pub open spec fn cell(&self, x: int, y: int) -> Option<TetrisTile>
        recommends
            in_bounds(x, y),
    {
        self.tiles@[x]@[y]
    }

    /// The whole grid as a sequence of columns.
    pub open spec fn grid(&self) -> BoardGrid {
        Seq::new(10, |x: int| self.tiles@[x]@)
    }

    /// Shape and color invariant: 10 columns of 20 admissible cells.
    pub open spec fn wf(&self) -> bool {
        &&& self.tiles@.len() == 10
        &&& forall|x: int| 0 <= x < 10 ==> (#[trigger] self.tiles@[x])@.len() == 20
        &&& forall|x: int, y: int|
            0 <= x < 10 && 0 <= y < 20 ==> cell_ok(#[trigger] self.cell(x, y))
    }

    /// Whether row `y` is completely filled.
    pub open spec fn row_full(&self, y: int) -> bool {
        forall|x: int| 0 <= x < 10 ==> (#[trigger] self.cell(x, y)) is Some
    }

    /// How many rows with index at least `y` are completely filled.
    pub open spec fn full_count_from(&self, y: int) -> int
        decreases 20 - y,
    {
        if y >= 20 {
            0
        } else {
            (if self.row_full(y) {
                1int
            } else {
                0int
            }) + self.full_count_from(y + 1)
        }
    }

    /// A fresh, empty board.
    pub fn new() -> (r: Self)
        ensures
            r.wf(),
            forall|x: int, y: int| in_bounds(x, y) ==> r.cell(x, y) is None,
    {
        let mut tiles: Vec<Vec<Option<TetrisTile>>> = Vec::new();
        let mut x: usize = 0;
        while x < 10
            invariant
                x <= 10,
                tiles@.len() == x,
                forall|i: int| 0 <= i < x ==> (#[trigger] tiles@[i])@.len() == 20,
                forall|i: int, j: int|
                    0 <= i < x && 0 <= j < 20 ==> (#[trigger] tiles@[i]@[j]) is None,
            decreases 10 - x,
        {
            let mut col: Vec<Option<TetrisTile>> = Vec::new();
            let mut y: usize = 0;
            while y < 20
                invariant
                    y <= 20,
                    col@.len() == y,
                    forall|j: int| 0 <= j < y ==> (#[trigger] col@[j]) is None,
                decreases 20 - y,
            {
                col.push(None);
                y += 1;
            }
            tiles.push(col);
            x += 1;
        }
        TetrisBoard { tiles }
    }

    /// Write a cell; coordinates off the board are ignored.
    pub fn set(&mut self, x: i32, y: i32, value: Option<TetrisTile>)
        requires
            old(self).wf(),
            cell_ok(value),
        ensures
            final(self).wf(),
            in_bounds(x as int, y as int) ==> forall|a: int, b: int|
                in_bounds(a, b) ==> final(self).cell(a, b) == (if a == x as int && b
                    == y as int {
                    value
                } else {
                    old(self).cell(a, b)
                }),
            !in_bounds(x as int, y as int) ==> *final(self) == *old(self),
    {
        if 0 <= x && x < 10 && 0 <= y && y < 20 {
            let ghost prev = *self;
            self.tiles[x as usize][y as usize] = value;
            proof {
                assert(self.tiles@[x as int]@ == prev.tiles@[x as int]@.update(y as int, value));
                assert(forall|a: int|
                    0 <= a < 10 && a != x as int ==> self.tiles@[a] == prev.tiles@[a]);
                assert forall|a: int, b: int| in_bounds(a, b) implies #[trigger] self.cell(a, b)
                    == (if a == x as int && b == y as int {
                    value
                } else {
                    prev.cell(a, b)
                }) by {}
            }
        }
    }

    /// Whether the cell at `(x, y)` is free: on the board and unoccupied.
    /// Coordinates off the board count as blocked.
    pub fn tile_empty(&self, x: i32, y: i32) -> (r: bool)
        requires
            self.wf(),
        ensures
            r == spec_tile_empty(self, x as int, y as int),
    {
        if 0 <= x && x < 10 && 0 <= y && y < 20 {
            self.tiles[x as usize][y as usize].is_none()
        } else {
            false
        }
    }

    /// A copy of the board, cell for cell: the snapshot sent to the peer.
    pub fn snapshot(&self) -> (r: Self)
        requires
            self.wf(),
        ensures
            r.wf(),
            forall|x: int, y: int| in_bounds(x, y) ==> r.cell(x, y) == self.cell(x, y),
    {
        let mut tiles: Vec<Vec<Option<TetrisTile>>> = Vec::new();
        let mut x: usize = 0;
        while x < 10
            invariant
                self.wf(),
                x <= 10,
                tiles@.len() == x,
                forall|i: int| 0 <= i < x ==> (#[trigger] tiles@[i])@.len() == 20,
                forall|i: int, j: int|
                    0 <= i < x && 0 <= j < 20 ==> (#[trigger] tiles@[i]@[j]) == self.cell(i, j),
            decreases 10 - x,
        {
            let mut col: Vec<Option<TetrisTile>> = Vec::new();
            let mut y: usize = 0;
            while y < 20
                invariant
                    self.wf(),
                    x < 10,
                    y <= 20,
                    col@.len() == y,
                    forall|j: int| 0 <= j < y ==> (#[trigger] col@[j]) == self.cell(x as int, j),
                decreases 20 - y,
            {
                col.push(self.tiles[x][y]);
                y += 1;
            }
            tiles.push(col);
            x += 1;
        }
        TetrisBoard { tiles }
    }

    /// The grid flattened column by column: entry `x * 20 + y` is the cell at
    /// column `x`, row `y`.  A read-only query for rendering layers.
    pub fn board_tiles(&self) -> (r: Vec<Option<TetrisTile>>)
        requires
            self.wf(),
        ensures
            r@.len() == 200,
            forall|x: int, y: int|
                in_bounds(x, y) ==> r@[x * 20 + y] == self.cell(x, y),
    {
        let mut r: Vec<Option<TetrisTile>> = Vec::new();
        let mut x: usize = 0;
        while x < 10
            invariant
                self.wf(),
                x <= 10,
                r@.len() == x * 20,
                forall|i: int, j: int|
                    0 <= i < x && 0 <= j < 20 ==> r@[i * 20 + j] == self.cell(i, j),
            decreases 10 - x,
        {
            let mut y: usize = 0;
            while y < 20
                invariant
                    self.wf(),
                    x < 10,
                    y <= 20,
                    r@.len() == x * 20 + y,
                    forall|i: int, j: int|
                        0 <= i < x && 0 <= j < 20 ==> r@[i * 20 + j] == self.cell(i, j),
                    forall|j: int| 0 <= j < y ==> r@[x * 20 + j] == self.cell(x as int, j),
                decreases 20 - y,
            {
                r.push(self.tiles[x][y]);
                y += 1;
            }
            x += 1;
        }
        r
    }
}

/// Whether `(x, y)` is a free cell of `b`: on the board and unoccupied.
pub open spec fn spec_tile_empty(b: &TetrisBoard, x: int, y: int) -> bool {
    in_bounds(x, y) && b.cell(x, y) is None
}

/// `full_count_from` counts at most one row per index.
pub proof fn lemma_full_count_bounds(b: &TetrisBoard, y: int)
    requires
        0 <= y <= 20,
    ensures
        0 <= b.full_count_from(y) <= 20 - y,
    decreases 20 - y,
{
    if y < 20 {
        lemma_full_count_bounds(b, y + 1);
    }
}

/// Counting full rows from `a` instead of from `c >= a` adds at most one row
/// per index in between.
pub proof fn lemma_full_count_mono(b: &TetrisBoard, a: int, c: int)
    requires
        0 <= a <= c <= 20,
    ensures
        0 <= b.full_count_from(a) - b.full_count_from(c) <= c - a,
    decreases c - a,
{
    if a < c {
        lemma_full_count_mono(b, a + 1, c);
    }
}

/// The score awarded for clearing `n` rows at once.
pub open spec fn spec_line_score(n: int) -> int {
    if n == 1 {
        40
    } else if n == 2 {
        100
    } else if n == 3 {
        30
    } else if n == 4 {
        1200
    } else {
        0
    }
}

/// The score table, indexed by how many rows one resolution pass cleared.
pub fn line_score(cleared: usize) -> (score: u32)
    ensures
        score == spec_line_score(cleared as int),
{
    if cleared == 1 {
        40
    } else if cleared == 2 {
        100
    } else if cleared == 3 {
        30
    } else if cleared == 4 {
        1200
    } else {
        0
    }
}

/// Remove every completely filled row and let the rows above it fall one step
/// per removed row; returns how many rows were removed.
///
/// A surviving row `y` ends up at `y` plus the number of full rows below it,
/// and the topmost `cleared` rows of the result are empty.
pub fn clear_lines(board: &mut TetrisBoard) -> (cleared: usize)
    requires
        old(board).wf(),
    ensures
        final(board).wf(),
        cleared == old(board).full_count_from(0),
        forall|x: int, y: int|
            0 <= x < 10 && 0 <= y < 20 && !old(board).row_full(y) ==> final(board).cell(
                x,
                y + old(board).full_count_from(y + 1),
            ) == old(board).cell(x, y),
        forall|x: int, y: int|
            0 <= x < 10 && 0 <= y < old(board).full_count_from(0) ==> final(board).cell(
                x,
                y,
            ) is None,
{
    // Which rows are full.
    let mut full: Vec<bool> = Vec::new();
    let mut y: usize = 0;
    while y < 20
        invariant
            old(board).wf(),
            *board == *old(board),
            y <= 20,
            full@.len() == y,
            forall|j: int| 0 <= j < y ==> ((#[trigger] full@[j]) <==> old(board).row_full(j)),
        decreases 20 - y,
    {
        let mut is_full = true;
        let mut x: usize = 0;
        while x < 10
            invariant
                old(board).wf(),
                *board == *old(board),
                x <= 10,
                y < 20,
                is_full <==> (forall|i: int|
                    0 <= i < x ==> (#[trigger] old(board).cell(i, y as int)) is Some),
            decreases 10 - x,
        {
            let c = board.tiles[x][y];
            proof {
                assert(old(board).cell(x as int, y as int) == c);
            }
            if c.is_none() {
                is_full = false;
            }
            x += 1;
        }
        full.push(is_full);
        y += 1;
    }

    // Suffix counts of full rows: counts[y] is the number of full rows with
    // index at least y.
    let mut counts: Vec<usize> = Vec::new();
    let mut j: usize = 0;
    while j < 21
        invariant
            counts@.len() == j,
            j <= 21,
            forall|i: int| 0 <= i < j ==> (#[trigger] counts@[i]) == 0,
        decreases 21 - j,
    {
        counts.push(0);
        j += 1;
    }
    let mut y2: usize = 20;
    while y2 > 0
        invariant
            old(board).wf(),
            *board == *old(board),
            y2 <= 20,
            full@.len() == 20,
            forall|j0: int| 0 <= j0 < 20 ==> ((#[trigger] full@[j0]) <==> old(board).row_full(j0)),
            counts@.len() == 21,
            forall|j0: int|
                y2 <= j0 <= 20 ==> (#[trigger] counts@[j0]) == old(board).full_count_from(j0),
        decreases y2,
    {
        y2 -= 1;
        proof {
            lemma_full_count_bounds(old(board), y2 as int + 1);
        }
        let c = counts[y2 + 1] + (if full[y2] {
            1
        } else {
            0
        });
        counts[y2] = c;
    }
    proof {
        lemma_full_count_bounds(old(board), 0);
    }
    let total = counts[0];

    // Rebuild each column: survivors drop to the bottom in order, the freed
    // rows at the top stay empty.
    let mut new_tiles: Vec<Vec<Option<TetrisTile>>> = Vec::new();
    let mut x2: usize = 0;
    while x2 < 10
        invariant
            old(board).wf(),
            *board == *old(board),
            x2 <= 10,
            full@.len() == 20,
            forall|j0: int| 0 <= j0 < 20 ==> ((#[trigger] full@[j0]) <==> old(board).row_full(j0)),
            counts@.len() == 21,
            forall|j0: int|
                0 <= j0 <= 20 ==> (#[trigger] counts@[j0]) == old(board).full_count_from(j0),
            total == old(board).full_count_from(0),
            new_tiles@.len() == x2,
            forall|i: int| 0 <= i < x2 ==> (#[trigger] new_tiles@[i])@.len() == 20,
            forall|i: int, j0: int|
                0 <= i < x2 && 0 <= j0 < 20 ==> cell_ok(#[trigger] new_tiles@[i]@[j0]),
            forall|i: int, y0: int|
                #![trigger new_tiles@[i], old(board).row_full(y0)]
                0 <= i < x2 && 0 <= y0 < 20 && !old(board).row_full(y0)
                    ==> new_tiles@[i]@[y0 + old(board).full_count_from(y0 + 1)] == old(
                    board,
                ).cell(i, y0),
            forall|i: int, j0: int|
                0 <= i < x2 && 0 <= j0 < old(board).full_count_from(0)
                    ==> (#[trigger] new_tiles@[i]@[j0]) is None,
        decreases 10 - x2,
    {
        // A cleared row means one fewer survivor: the new column is `total`
        // blanks followed by the surviving cells in their old order.
        proof {
            lemma_full_count_bounds(old(board), 0);
        }
        let mut col: Vec<Option<TetrisTile>> = Vec::new();
        let mut j3: usize = 0;
        while j3 < total
            invariant
                col@.len() == j3,
                j3 <= total,
                total <= 20,
                forall|j0: int| 0 <= j0 < j3 ==> (#[trigger] col@[j0]) is None,
            decreases total - j3,
        {
            col.push(None);
            j3 += 1;
        }
        let mut y3: usize = 0;
        while y3 < 20
            invariant
                old(board).wf(),
                *board == *old(board),
                x2 < 10,
                y3 <= 20,
                full@.len() == 20,
                forall|j0: int|
                    0 <= j0 < 20 ==> ((#[trigger] full@[j0]) <==> old(board).row_full(j0)),
                counts@.len() == 21,
                forall|j0: int|
                    0 <= j0 <= 20 ==> (#[trigger] counts@[j0]) == old(board).full_count_from(j0),
                total == old(board).full_count_from(0),
                col@.len() == y3 + old(board).full_count_from(y3 as int),
                forall|j0: int| 0 <= j0 < col@.len() ==> cell_ok(#[trigger] col@[j0]),
                forall|j0: int|
                    0 <= j0 < old(board).full_count_from(0) ==> (#[trigger] col@[j0]) is None,
                forall|y0: int|
                    #![trigger old(board).row_full(y0)]
                    0 <= y0 < y3 && !old(board).row_full(y0) ==> y0 + old(board).full_count_from(
                        y0 + 1,
                    ) < col@.len() && col@[y0 + old(board).full_count_from(y0 + 1)] == old(
                        board,
                    ).cell(x2 as int, y0),
            decreases 20 - y3,
        {
            proof {
                lemma_full_count_bounds(old(board), y3 as int + 1);
                lemma_full_count_mono(old(board), 0, y3 as int);
                assert(old(board).full_count_from(y3 as int) == (if old(board).row_full(
                    y3 as int,
                ) {
                    1int
                } else {
                    0int
                }) + old(board).full_count_from(y3 as int + 1));
            }
            let ghost prev = col@;
            if !full[y3] {
                let v = board.tiles[x2][y3];
                proof {
                    assert(!old(board).row_full(y3 as int));
                    assert(old(board).full_count_from(y3 as int) == old(board).full_count_from(
                        y3 as int + 1,
                    ));
                    assert(v == old(board).cell(x2 as int, y3 as int));
                    assert(col@.len() == y3 + old(board).full_count_from(y3 as int + 1));
                }
                col.push(v);
                proof {
                    assert(col@ == prev.push(old(board).cell(x2 as int, y3 as int)));
                    assert(col@[y3 as int + old(board).full_count_from(y3 as int + 1)] == old(
                        board,
                    ).cell(x2 as int, y3 as int));
                    assert forall|y0: int|
                        #![trigger old(board).row_full(y0)]
                        0 <= y0 < y3 + 1 && !old(board).row_full(y0) implies y0 + old(
                        board,
                    ).full_count_from(y0 + 1) < col@.len() && col@[y0 + old(
                        board,
                    ).full_count_from(y0 + 1)] == old(board).cell(x2 as int, y0) by {
                        lemma_full_count_bounds(old(board), y0 + 1);
                        if y0 < y3 {
                            assert(prev[y0 + old(board).full_count_from(y0 + 1)] == old(
                                board,
                            ).cell(x2 as int, y0) && y0 + old(board).full_count_from(y0 + 1)
                                < prev.len());
                            assert(prev.push(old(board).cell(x2 as int, y3 as int))[y0 + old(
                                board,
                            ).full_count_from(y0 + 1)] == prev[y0 + old(board).full_count_from(
                                y0 + 1,
                            )]);
                        } else {
                            assert(y0 == y3);
                        }
                    }
                }
            } else {
                proof {
                    assert(old(board).row_full(y3 as int));
                    assert((y3 + 1) + old(board).full_count_from(y3 as int + 1) == y3 + old(
                        board,
                    ).full_count_from(y3 as int));
                    assert forall|y0: int|
                        #![trigger old(board).row_full(y0)]
                        0 <= y0 < y3 + 1 && !old(board).row_full(y0) implies y0 + old(
                        board,
                    ).full_count_from(y0 + 1) < col@.len() && col@[y0 + old(
                        board,
                    ).full_count_from(y0 + 1)] == old(board).cell(x2 as int, y0) by {
                        assert(y0 < y3);
                    }
                }
            }
            y3 += 1;
        }
        proof {
            assert(col@.len() == 20);
        }
        new_tiles.push(col);
        x2 += 1;
    }
    board.tiles = new_tiles;
    total
}

} // verus!
