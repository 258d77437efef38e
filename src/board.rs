//! Four chess positions held as nine four-slot bit-planes.
use vstd::prelude::*;
use crate::lane::{Lane, eq_mask};
use crate::movegen::MoveField;

verus! {

/// Metadata bit offsets: side to move (1 bit, 0 = white, 1 = black).
pub const META_TURN: u64 = 0;
/// Castling rights, 4 bits.
pub const META_CASTLING: u64 = 1;
/// En-passant target square, 7 bits (0 to 63, 64 for none).
pub const META_EP: u64 = 5;

/// The nine planes of one position, one bitboard each.
pub struct Planes {
    pub pawns: u64,
    pub leapers: u64,
    pub sliders: u64,
    pub kings: u64,
    pub white: u64,
    pub black: u64,
    pub diagonal: u64,
    pub orthogonal: u64,
    pub metadata: u64,
}

/// Whether `x` has at most one square set.
pub open spec fn at_most_one_square(x: u64) -> bool {
    x & ((x - 1) as u64) == 0
}

/// One plane after a piece moves from the squares of `from` to those of
/// `to`: both are cleared, and `to` is set where the plane held a square of
/// `from`.
pub open spec fn relocate(plane: u64, from: u64, to: u64) -> u64 {
    let kept = plane & !from & !to;
    if plane & from != 0 {
        kept | to
    } else {
        kept
    }
}

impl Planes {
    /// The occupancy invariant: the piece-class planes are pairwise disjoint,
    /// the color planes are disjoint, and both cover the same squares.
    pub open spec fn occupancy_ok(self) -> bool {
        &&& self.pawns & self.leapers == 0
        &&& self.pawns & self.sliders == 0
        &&& self.pawns & self.kings == 0
        &&& self.leapers & self.sliders == 0
        &&& self.leapers & self.kings == 0
        &&& self.sliders & self.kings == 0
        &&& self.white & self.black == 0
        &&& self.pawns | self.leapers | self.sliders | self.kings == self.white | self.black
    }

    /// Every square of the position that holds a piece.
    pub open spec fn occupancy(self) -> u64 {
        self.pawns | self.leapers | self.sliders | self.kings
    }

    /// Whether white is to move.
    pub open spec fn white_to_move(self) -> bool {
        self.metadata & 1 == 0
    }

    /// The position after the piece on `from` moves to `to`, evicting what
    /// stood there, with the side to move flipped.
    pub open spec fn moved(self, from: u64, to: u64) -> Planes {
        Planes {
            pawns: relocate(self.pawns, from, to),
            leapers: relocate(self.leapers, from, to),
            sliders: relocate(self.sliders, from, to),
            kings: relocate(self.kings, from, to),
            white: relocate(self.white, from, to),
            black: relocate(self.black, from, to),
            diagonal: relocate(self.diagonal, from, to),
            orthogonal: relocate(self.orthogonal, from, to),
            metadata: self.metadata ^ 1,
        }
    }
}

proof fn lemma_relocate_masks(plane: u64, from: u64, to: u64)
    by (bit_vector)
    ensures
        ((plane & !from) & !to) | (to & !eq_mask(plane & from, 0)) == relocate(plane, from, to),
{
}

/// A move whose origin holds at most one square keeps the occupancy
/// invariant.
pub proof fn lemma_move_keeps_occupancy(p: Planes, from: u64, to: u64)
    requires
        p.occupancy_ok(),
        at_most_one_square(from),
    ensures
        p.moved(from, to).occupancy_ok(),
{
    let (pa, le, sl, ki, wh, bl) = (p.pawns, p.leapers, p.sliders, p.kings, p.white, p.black);
    assert({
        &&& relocate(pa, from, to) & relocate(le, from, to) == 0
        &&& relocate(pa, from, to) & relocate(sl, from, to) == 0
        &&& relocate(pa, from, to) & relocate(ki, from, to) == 0
        &&& relocate(le, from, to) & relocate(sl, from, to) == 0
        &&& relocate(le, from, to) & relocate(ki, from, to) == 0
        &&& relocate(sl, from, to) & relocate(ki, from, to) == 0
        &&& relocate(wh, from, to) & relocate(bl, from, to) == 0
        &&& relocate(pa, from, to) | relocate(le, from, to) | relocate(sl, from, to) | relocate(
            ki,
            from,
            to,
        ) == relocate(wh, from, to) | relocate(bl, from, to)
    }) by (bit_vector)
        requires
            pa & le == 0,
            pa & sl == 0,
            pa & ki == 0,
            le & sl == 0,
            le & ki == 0,
            sl & ki == 0,
            wh & bl == 0,
            pa | le | sl | ki == wh | bl,
            from & ((from - 1) as u64) == 0,
    ;
}

/// A move with nothing to move and nowhere to go leaves the position as it
/// was, but for the side to move.
pub proof fn lemma_idle_move(p: Planes)
    ensures
        p.moved(0, 0) == (Planes { metadata: p.metadata ^ 1, ..p }),
{
    assert(forall|x: u64| #[trigger] relocate(x, 0, 0) == x) by {
        assert forall|x: u64| #[trigger] relocate(x, 0, 0) == x by {
            assert(relocate(x, 0, 0) == x) by (bit_vector);
        }
    }
}

/// Four independent positions, one per slot of each plane.
#[derive(Clone, Copy)]
pub struct Board {
    pub pawns: Lane,
    pub leapers: Lane,
    pub sliders: Lane,
    pub kings: Lane,
    pub white: Lane,
    pub black: Lane,
    /// Sliders that move diagonally: bishops and queens.
    pub diagonal: Lane,
    /// Sliders that move orthogonally: rooks and queens.
    pub orthogonal: Lane,
    pub metadata: Lane,
}

impl Board {
    /// The position in slot `i`.
    pub open spec fn at(self, i: int) -> Planes {
        Planes {
            pawns: self.pawns.slot(i),
            leapers: self.leapers.slot(i),
            sliders: self.sliders.slot(i),
            kings: self.kings.slot(i),
            white: self.white.slot(i),
            black: self.black.slot(i),
            diagonal: self.diagonal.slot(i),
            orthogonal: self.orthogonal.slot(i),
            metadata: self.metadata.slot(i),
        }
    }

    /// Every slot's position satisfies the occupancy invariant.
    pub open spec fn wf(self) -> bool {
        forall|i: int| 0 <= i < 4 ==> (#[trigger] self.at(i)).occupancy_ok()
    }

    /// The same position in all four slots.
    pub open spec fn uniform(p: Planes) -> Board {
        Board {
            pawns: Lane::splat(p.pawns),
            leapers: Lane::splat(p.leapers),
            sliders: Lane::splat(p.sliders),
            kings: Lane::splat(p.kings),
            white: Lane::splat(p.white),
            black: Lane::splat(p.black),
            diagonal: Lane::splat(p.diagonal),
            orthogonal: Lane::splat(p.orthogonal),
            metadata: Lane::splat(p.metadata),
        }
    }

    /// The board after the batched move `from`/`to`: each slot's position
    /// moved by that slot's squares.
    pub open spec fn moved_board(self, from: Lane, to: Lane) -> Board {
        Board {
            pawns: relocated(self.pawns, from, to),
            leapers: relocated(self.leapers, from, to),
            sliders: relocated(self.sliders, from, to),
            kings: relocated(self.kings, from, to),
            white: relocated(self.white, from, to),
            black: relocated(self.black, from, to),
            diagonal: relocated(self.diagonal, from, to),
            orthogonal: relocated(self.orthogonal, from, to),
            metadata: self.metadata.map(|x: u64| x ^ 1),
        }
    }

    /// A board with no pieces, white to move, in every slot.
    pub fn new_empty() -> (r: Board)
        ensures
            r == Board::uniform(
                Planes {
                    pawns: 0,
                    leapers: 0,
                    sliders: 0,
                    kings: 0,
                    white: 0,
                    black: 0,
                    diagonal: 0,
                    orthogonal: 0,
                    metadata: 0,
                },
            ),
            r.wf(),
    {
        let r = Board {
            pawns: Lane::from_single(0),
            leapers: Lane::from_single(0),
            sliders: Lane::from_single(0),
            kings: Lane::from_single(0),
            white: Lane::from_single(0),
            black: Lane::from_single(0),
            diagonal: Lane::from_single(0),
            orthogonal: Lane::from_single(0),
            metadata: Lane::from_single(0),
        };
        assert(0u64 & 0u64 == 0 && 0u64 | 0u64 == 0) by (bit_vector);
        r
    }

    /// Per slot, every square that holds a piece.
    pub fn occupied(&self) -> (r: Lane)
        ensures
            forall|i: int| 0 <= i < 4 ==> #[trigger] r.slot(i) == self.at(i).occupancy(),
    {
        self.pawns.bitor(self.leapers).bitor(self.sliders).bitor(self.kings)
    }

    /// Applies one half-move per slot: the piece on `mv.from` moves to
    /// `mv.to` in every plane it belongs to, evicting whatever stood there,
    /// and the side to move flips in every slot, whether or not the slot had
    /// a move.
    pub fn apply_move(&mut self, mv: &MoveField)
        ensures
            *final(self) == old(self).moved_board(mv.from, mv.to),
            forall|i: int|
                0 <= i < 4 ==> #[trigger] final(self).at(i) == old(self).at(i).moved(
                    mv.from.slot(i),
                    mv.to.slot(i),
                ),
            forall|i: int|
                #![trigger final(self).at(i)]
                0 <= i < 4 && mv.from.slot(i) == 0 && mv.to.slot(i) == 0 ==> final(self).at(i)
                    == (Planes { metadata: old(self).at(i).metadata ^ 1, ..old(self).at(i) }),
            old(self).wf() && (forall|i: int|
                0 <= i < 4 ==> at_most_one_square(#[trigger] mv.from.slot(i))) ==> final(self).wf(),
    {
        let from = mv.from;
        let to = mv.to;
        // Each plane's new value depends on its own old value and the move
        // alone, so the planes can be updated one after another.
        self.pawns = relocate_lane(self.pawns, from, to);
        self.leapers = relocate_lane(self.leapers, from, to);
        self.sliders = relocate_lane(self.sliders, from, to);
        self.kings = relocate_lane(self.kings, from, to);
        self.white = relocate_lane(self.white, from, to);
        self.black = relocate_lane(self.black, from, to);
        self.diagonal = relocate_lane(self.diagonal, from, to);
        self.orthogonal = relocate_lane(self.orthogonal, from, to);
        self.metadata = self.metadata.bitxor(Lane::from_single(1u64 << META_TURN));
        proof {
            assert(1u64 << 0u64 == 1) by (bit_vector);
            assert forall|i: int| 0 <= i < 4 implies #[trigger] self.at(i) == old(self).at(
                i,
            ).moved(mv.from.slot(i), mv.to.slot(i)) by {
                relocated_slot(old(self).pawns, from, to, i);
                relocated_slot(old(self).leapers, from, to, i);
                relocated_slot(old(self).sliders, from, to, i);
                relocated_slot(old(self).kings, from, to, i);
                relocated_slot(old(self).white, from, to, i);
                relocated_slot(old(self).black, from, to, i);
                relocated_slot(old(self).diagonal, from, to, i);
                relocated_slot(old(self).orthogonal, from, to, i);
            }
            assert forall|i: int|
                0 <= i < 4 && mv.from.slot(i) == 0 && mv.to.slot(i) == 0 implies #[trigger] self.at(
                i,
            ) == (Planes { metadata: old(self).at(i).metadata ^ 1, ..old(self).at(i) }) by {
                lemma_idle_move(old(self).at(i));
            }
            if old(self).wf() && (forall|i: int|
                0 <= i < 4 ==> at_most_one_square(#[trigger] mv.from.slot(i))) {
                assert forall|i: int| 0 <= i < 4 implies (#[trigger] self.at(i)).occupancy_ok() by {
                    lemma_move_keeps_occupancy(old(self).at(i), mv.from.slot(i), mv.to.slot(i));
                }
            }
        }
    }
}

/// Per slot, `relocate` of the plane's slot by the move's slots.
pub open spec fn relocated(plane: Lane, from: Lane, to: Lane) -> Lane {
    Lane {
        s0: relocate(plane.s0, from.s0, to.s0),
        s1: relocate(plane.s1, from.s1, to.s1),
        s2: relocate(plane.s2, from.s2, to.s2),
        s3: relocate(plane.s3, from.s3, to.s3),
    }
}

proof fn relocated_slot(plane: Lane, from: Lane, to: Lane, i: int)
    requires
        0 <= i < 4,
    ensures
        relocated(plane, from, to).slot(i) == relocate(plane.slot(i), from.slot(i), to.slot(i)),
{
}

/// One plane of a batched move: per slot, whether the origin belonged to the
/// plane is read first, then origin and destination are cleared, then the
/// destination is set where the origin belonged.
fn relocate_lane(plane: Lane, from: Lane, to: Lane) -> (r: Lane)
    ensures
        r == relocated(plane, from, to),
{
    let had = plane.bitand(from).is_not_zero_mask();
    let r = plane.bitand(from.not()).bitand(to.not()).bitor(to.bitand(had));
    proof {
        lemma_relocate_masks(plane.s0, from.s0, to.s0);
        lemma_relocate_masks(plane.s1, from.s1, to.s1);
        lemma_relocate_masks(plane.s2, from.s2, to.s2);
        lemma_relocate_masks(plane.s3, from.s3, to.s3);
    }
    r
}

} // verus!
