//! The bag randomizer: a shuffled sequence of the seven piece numbers,
//! refilled with a fresh shuffle only once it runs out, so that every piece
//! appears exactly once in every run of seven draws.

use crate::piece::{is_catalog_piece, shape, spec_shape_masks, TetrisPiece};
use rand::seq::SliceRandom;
use rand::Rng;
use rand::SeedableRng;
use vstd::prelude::*;
use vstd::seq_lib::*;
use vstd::set_lib::lemma_subset_equality;

verus! {

/// Relies on rand's `SliceRandom::shuffle`: it reorders the elements of the
/// slice in place by swaps, neither adding nor removing any.
#[verifier::external_body]
fn shuffle_pieces(v: &mut Vec<u8>)
    ensures
        final(v)@.len() == old(v)@.len(),
        final(v)@.to_multiset() == old(v)@.to_multiset(),
{
    v.shuffle(&mut rand::thread_rng());
}

/// What rand's seeded shuffle makes of a byte sequence.  `StdRng` expands
/// the seed by a fixed pseudo-random function, so the reordering depends on
/// the seed and the sequence alone.
pub uninterp spec fn spec_seeded_shuffle(seed: u64, s: Seq<u8>) -> Seq<u8>;

/// Relies on rand's `SliceRandom::shuffle` driven by `StdRng::seed_from_u64`:
/// a deterministic reordering of the slice that neither adds nor removes
/// elements.
#[verifier::external_body]
fn shuffle_pieces_seeded(v: &mut Vec<u8>, seed: u64)
    ensures
        final(v)@ == spec_seeded_shuffle(seed, old(v)@),
        final(v)@.to_multiset() == old(v)@.to_multiset(),
{
    let mut rng = rand::rngs::StdRng::seed_from_u64(seed);
    v.shuffle(&mut rng);
}

/// Relies on rand's `Rng::gen_range`: on the non-empty range `0..n` it
/// returns a value inside the range.
#[verifier::external_body]
pub(crate) fn random_below(n: u8) -> (r: u8)
    requires
        n > 0,
    ensures
        r < n,
{
    rand::thread_rng().gen_range(0..n)
}

/// The multiset of a sequence determines its length, its distinctness and
/// its membership: any reordering keeps all three.
proof fn lemma_permutation_props(before: Seq<u8>, after: Seq<u8>)
    requires
        after.to_multiset() == before.to_multiset(),
        before.no_duplicates(),
    ensures
        after.len() == before.len(),
        after.no_duplicates(),
        forall|v: u8| after.contains(v) <==> before.contains(v),
{
    broadcast use group_to_multiset_ensures;

    before.lemma_multiset_has_no_duplicates();
    after.lemma_multiset_has_no_duplicates_conv();
    assert(after.len() == after.to_multiset().len());
    assert(before.len() == before.to_multiset().len());
    assert forall|v: u8| after.contains(v) <==> before.contains(v) by {
        if after.contains(v) {
            assert(before.to_multiset().count(v) > 0);
        }
        if before.contains(v) {
            assert(after.to_multiset().count(v) > 0);
        }
    }
}

/// The seven piece numbers in order.
fn all_piece_ids() -> (r: Vec<u8>)
    ensures
        r@ == seq![0u8, 1u8, 2u8, 3u8, 4u8, 5u8, 6u8],
        r@.no_duplicates(),
        forall|id: u8| id < 7 ==> r@.contains(id),
{
    let mut v: Vec<u8> = Vec::new();
    v.push(0);
    v.push(1);
    v.push(2);
    v.push(3);
    v.push(4);
    v.push(5);
    v.push(6);
    proof {
        assert(v@ =~= seq![0u8, 1u8, 2u8, 3u8, 4u8, 5u8, 6u8]);
        assert(v@.no_duplicates());
        assert forall|id: u8| id < 7 implies v@.contains(id) by {
            assert(v@[id as int] == id);
        }
    }
    v
}

/// A full set of the seven piece numbers in a fresh random order.
fn fresh_bag_vec() -> (r: Vec<u8>)
    ensures
        r@.len() == 7,
        r@.no_duplicates(),
        forall|i: int| 0 <= i < 7 ==> (#[trigger] r@[i]) < 7,
        forall|id: u8| id < 7 ==> r@.contains(id),
{
    let mut v = all_piece_ids();
    let ghost before = v@;
    shuffle_pieces(&mut v);
    proof {
        lemma_permutation_props(before, v@);
        assert forall|i: int| 0 <= i < 7 implies (#[trigger] v@[i]) < 7 by {
            assert(v@.contains(v@[i]));
        }
    }
    v
}

/// The self-refilling shuffled sequence of pieces.
pub struct TetrisPieceBuffer {
    pieces: Vec<u8>,
}

impl View for TetrisPieceBuffer {
    type V = Seq<u8>;

    closed spec fn view(&self) -> Seq<u8> {
        self.pieces@
    }
}

/// How one draw changes a bag: from a non-empty bag the last entry leaves
/// and becomes the drawn shape; an empty bag is first refilled with a full
/// shuffled run, so the drawn shape and the six remaining entries together
/// cover all seven piece numbers.
pub open spec fn bag_step(before: Seq<u8>, after: Seq<u8>, drawn: TetrisPiece) -> bool {
    if before.len() > 0 {
        after == before.drop_last() && drawn.data@ == spec_shape_masks(before.last() as int)
    } else {
        after.len() == 6 && (exists|id: u8|
            id < 7 && !after.contains(id) && drawn.data@ == spec_shape_masks(id as int) && (
            forall|id2: u8| id2 < 7 && id2 != id ==> after.contains(id2)))
    }
}

impl TetrisPieceBuffer {
    /// The bag holds at most one run of the seven piece numbers: every entry
    /// names a catalog shape and none repeats.
    pub open spec fn wf(&self) -> bool {
        &&& self@.len() <= 7
        &&& forall|i: int| 0 <= i < self@.len() ==> (#[trigger] self@[i]) < 7
        &&& self@.no_duplicates()
    }

    /// A freshly shuffled full bag.
    pub fn new() -> (r: Self)
        ensures
            r.wf(),
            r@.len() == 7,
            forall|id: u8| id < 7 ==> r@.contains(id),
    {
        TetrisPieceBuffer { pieces: fresh_bag_vec() }
    }

    /// A full bag shuffled deterministically from a seed: the same seed
    /// always yields the same draw order, for reproducible runs and tests.
    pub fn new_seeded(seed: u64) -> (r: Self)
        ensures
            r.wf(),
            r@.len() == 7,
            forall|id: u8| id < 7 ==> r@.contains(id),
            r@ == spec_seeded_shuffle(seed, seq![0u8, 1u8, 2u8, 3u8, 4u8, 5u8, 6u8]),
    {
        let mut v = all_piece_ids();
        let ghost before = v@;
        shuffle_pieces_seeded(&mut v, seed);
        proof {
            lemma_permutation_props(before, v@);
            assert forall|i: int| 0 <= i < v@.len() implies (#[trigger] v@[i]) < 7 by {
                assert(v@.contains(v@[i]));
            }
        }
        TetrisPieceBuffer { pieces: v }
    }

    /// Draw the next piece.  An exhausted bag first regenerates a shuffled
    /// full set, so a draw never fails; the draw after an exhausting one
    /// begins a new, independently shuffled run of all seven pieces.
    pub fn pop(&mut self) -> (r: TetrisPiece)
        requires
            old(self).wf(),
        ensures
            final(self).wf(),
            is_catalog_piece(r),
            bag_step(old(self)@, final(self)@, r),
    {
        let ghost was_empty = self.pieces@.len() == 0;
        if self.pieces.is_empty() {
            self.pieces = fresh_bag_vec();
        }
        let ghost filled = self.pieces@;
        let id = match self.pieces.pop() {
            Some(id) => id,
            None => {
                proof {
                    assert(false);
                }
                0
            },
        };
        proof {
            assert(filled[filled.len() - 1] == id);
            assert(self.pieces@ =~= filled.drop_last());
            assert(self.pieces@.no_duplicates()) by {
                assert forall|i: int, j: int|
                    0 <= i < j < self.pieces@.len() implies self.pieces@[i] != self.pieces@[j] by {
                    assert(filled[i] != filled[j]);
                }
            }
            if was_empty {
                assert(!self.pieces@.contains(id)) by {
                    if self.pieces@.contains(id) {
                        let i = choose|i: int| 0 <= i < 6 && self.pieces@[i] == id;
                        assert(filled[i] == filled[6]);
                    }
                }
                assert forall|id2: u8| id2 < 7 && id2 != id implies self.pieces@.contains(
                    id2,
                ) by {
                    assert(filled.contains(id2));
                    let i = choose|i: int| 0 <= i < 7 && filled[i] == id2;
                    assert(self.pieces@[i] == id2);
                }
            }
        }
        shape(id)
    }
}

/// A full run of the bag is a permutation of the seven piece numbers: seven
/// distinct draws, each naming a catalog shape, must hand out every shape
/// exactly once.
pub proof fn lemma_full_bag_each_piece_once(ids: Seq<u8>)
    requires
        ids.len() == 7,
        ids.no_duplicates(),
        forall|i: int| 0 <= i < 7 ==> (#[trigger] ids[i]) < 7,
    ensures
        forall|id: u8| id < 7 ==> ids.contains(id),
        forall|id: u8| id < 7 ==> ids.to_multiset().count(id) == 1,
{
    broadcast use group_to_multiset_ensures;

    let all: Set<u8> = set![0u8, 1u8, 2u8, 3u8, 4u8, 5u8, 6u8];
    ids.unique_seq_to_set();
    assert(ids.to_set().len() == 7);
    assert(ids.to_set() <= all) by {
        assert forall|e: u8| ids.to_set().contains(e) implies all.contains(e) by {
            assert(ids.contains(e));
            let i = choose|i: int| 0 <= i < 7 && ids[i] == e;
            assert(e < 7);
        }
    }
    assert(all.len() <= 7) by {
        assert(all.len() == 7);
    }
    lemma_subset_equality(ids.to_set(), all);
    assert forall|id: u8| id < 7 implies ids.contains(id) by {
        assert(all.contains(id));
        assert(ids.to_set().contains(id));
    }
    ids.lemma_multiset_has_no_duplicates();
    assert forall|id: u8| id < 7 implies ids.to_multiset().count(id) == 1 by {
        assert(ids.contains(id));
        assert(ids.to_multiset().count(id) > 0);
    }
}

} // verus!
