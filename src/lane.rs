//! Four 64-bit bitboards processed together, one per slot.
//!
//! A bitboard holds one bit per square, bit index `rank * 8 + file`.
use vstd::prelude::*;

verus! {

/// Every square except those on file a.
pub const NOT_A_FILE: u64 = 0xfefe_fefe_fefe_fefe;

/// Every square except those on file h.
pub const NOT_H_FILE: u64 = 0x7f7f_7f7f_7f7f_7f7f;

/// Compass directions, as codes for the spec functions below.
pub const NORTH: u8 = 0;
pub const SOUTH: u8 = 1;
pub const EAST: u8 = 2;
pub const WEST: u8 = 3;
pub const NORTH_EAST: u8 = 4;
pub const NORTH_WEST: u8 = 5;
pub const SOUTH_EAST: u8 = 6;
pub const SOUTH_WEST: u8 = 7;

/// One step of every set square in direction `dir`; squares that would leave
/// the board, across an edge rank or across the a/h files, are dropped.
pub open spec fn step(x: u64, dir: u8) -> u64 {
    if dir == NORTH {
        x << 8u64
    } else if dir == SOUTH {
        x >> 8u64
    } else if dir == EAST {
        (x << 1u64) & NOT_A_FILE
    } else if dir == WEST {
        (x >> 1u64) & NOT_H_FILE
    } else if dir == NORTH_EAST {
        (x << 9u64) & NOT_A_FILE
    } else if dir == NORTH_WEST {
        (x << 7u64) & NOT_H_FILE
    } else if dir == SOUTH_EAST {
        (x >> 7u64) & NOT_A_FILE
    } else {
        (x >> 9u64) & NOT_H_FILE
    }
}

/// The squares of `g`, together with those one step further in `dir` that are empty.
pub open spec fn grow(g: u64, empty: u64, dir: u8) -> u64 {
    g | (empty & step(g, dir))
}

/// The squares reached from `g` by sliding in `dir` through the squares of
/// `empty`, the starting squares included: seven single steps reach every
/// square a slide can reach on an 8x8 board.
pub open spec fn flood(g: u64, empty: u64, dir: u8) -> u64 {
    let a1 = grow(g, empty, dir);
    let a2 = grow(a1, empty, dir);
    let a3 = grow(a2, empty, dir);
    let a4 = grow(a3, empty, dir);
    let a5 = grow(a4, empty, dir);
    let a6 = grow(a5, empty, dir);
    grow(a6, empty, dir)
}

/// The result of the doubling flood (1, 2, then 4 steps at a time).
pub open spec fn doubling_flood(g: u64, empty: u64, dir: u8) -> u64 {
    let g1 = g | (empty & step(g, dir));
    let e1 = empty & step(empty, dir);
    let g2 = g1 | (e1 & step(step(g1, dir), dir));
    let e2 = e1 & step(step(e1, dir), dir);
    g2 | (e2 & step(step(step(step(g2, dir), dir), dir), dir))
}

/// One chain of named intermediate values for each of the two floods; named
/// values keep the bit-vector query linear in size.
#[verifier::rlimit(100)]
proof fn lemma_flood_chains_meet(
    g: u64, empty: u64, dir: u8,
    a1: u64, a2: u64, a3: u64, a4: u64, a5: u64, a6: u64, a7: u64,
    g1: u64, e1: u64, u1: u64, u2: u64, g2: u64, q1: u64, q2: u64, e2: u64,
    r1: u64, r2: u64, r3: u64, r4: u64, g3: u64,
)
    by (bit_vector)
    requires
        dir < 8,
        a1 == g | (empty & step(g, dir)),
        a2 == a1 | (empty & step(a1, dir)),
        a3 == a2 | (empty & step(a2, dir)),
        a4 == a3 | (empty & step(a3, dir)),
        a5 == a4 | (empty & step(a4, dir)),
        a6 == a5 | (empty & step(a5, dir)),
        a7 == a6 | (empty & step(a6, dir)),
        g1 == g | (empty & step(g, dir)),
        e1 == empty & step(empty, dir),
        u1 == step(g1, dir),
        u2 == step(u1, dir),
        g2 == g1 | (e1 & u2),
        q1 == step(e1, dir),
        q2 == step(q1, dir),
        e2 == e1 & q2,
        r1 == step(g2, dir),
        r2 == step(r1, dir),
        r3 == step(r2, dir),
        r4 == step(r3, dir),
        g3 == g2 | (e2 & r4),
    ensures
        g3 == a7,
{
}

/// The doubling flood reaches exactly the squares of seven single steps.
pub proof fn lemma_doubling_flood(g: u64, empty: u64, dir: u8)
    requires
        dir < 8,
    ensures
        doubling_flood(g, empty, dir) == flood(g, empty, dir),
{
    let a1 = grow(g, empty, dir);
    let a2 = grow(a1, empty, dir);
    let a3 = grow(a2, empty, dir);
    let a4 = grow(a3, empty, dir);
    let a5 = grow(a4, empty, dir);
    let a6 = grow(a5, empty, dir);
    let a7 = grow(a6, empty, dir);
    let g1 = g | (empty & step(g, dir));
    let e1 = empty & step(empty, dir);
    let u1 = step(g1, dir);
    let u2 = step(u1, dir);
    let g2 = g1 | (e1 & u2);
    let q1 = step(e1, dir);
    let q2 = step(q1, dir);
    let e2 = e1 & q2;
    let r1 = step(g2, dir);
    let r2 = step(r1, dir);
    let r3 = step(r2, dir);
    let r4 = step(r3, dir);
    let g3 = g2 | (e2 & r4);
    lemma_flood_chains_meet(
        g, empty, dir, a1, a2, a3, a4, a5, a6, a7,
        g1, e1, u1, u2, g2, q1, q2, e2, r1, r2, r3, r4, g3,
    );
}

/// Whether square `sq` is set in bitboard `b`.
pub open spec fn has_square(b: u64, sq: u64) -> bool {
    (b >> sq) & 1 == 1
}

/// Whether square `to` lies on the ray that leaves square `from` in `dir`,
/// `from` itself included, up to the board's edge.
pub open spec fn on_ray(from: u64, to: u64, dir: u8) -> bool {
    let ff = from % 8;
    let fr = from / 8;
    let tf = to % 8;
    let tr = to / 8;
    if dir == NORTH {
        tf == ff && tr >= fr
    } else if dir == SOUTH {
        tf == ff && tr <= fr
    } else if dir == EAST {
        tr == fr && tf >= ff
    } else if dir == WEST {
        tr == fr && tf <= ff
    } else if dir == NORTH_EAST {
        tf >= ff && tf + fr == ff + tr
    } else if dir == NORTH_WEST {
        tf <= ff && ff + fr == tf + tr
    } else if dir == SOUTH_EAST {
        tf >= ff && tf + tr == ff + fr
    } else {
        tf <= ff && ff + tr == tf + fr
    }
}

/// A step east or north-east or south-east of a square on file h leaves the
/// board and yields nothing; so does a step west, north-west or south-west
/// of a square on file a.
pub proof fn lemma_shift_no_wrap(sq: u64)
    requires
        sq < 64,
    ensures
        sq % 8 == 7 ==> step(1u64 << sq, EAST) == 0 && step(1u64 << sq, NORTH_EAST) == 0 && step(
            1u64 << sq,
            SOUTH_EAST,
        ) == 0,
        sq % 8 == 0 ==> step(1u64 << sq, WEST) == 0 && step(1u64 << sq, NORTH_WEST) == 0 && step(
            1u64 << sq,
            SOUTH_WEST,
        ) == 0,
{
    assert(sq % 8 == 7 ==> ((1u64 << sq) << 1u64) & NOT_A_FILE == 0 && ((1u64 << sq) << 9u64)
        & NOT_A_FILE == 0 && ((1u64 << sq) >> 7u64) & NOT_A_FILE == 0) by (bit_vector)
        requires
            sq < 64,
    ;
    assert(sq % 8 == 0 ==> ((1u64 << sq) >> 1u64) & NOT_H_FILE == 0 && ((1u64 << sq) << 7u64)
        & NOT_H_FILE == 0 && ((1u64 << sq) >> 9u64) & NOT_H_FILE == 0) by (bit_vector)
        requires
            sq < 64,
    ;
}

#[verifier::rlimit(100)]
proof fn lemma_open_chain_is_ray(
    sq: u64, t: u64, dir: u8, empty: u64,
    a1: u64, a2: u64, a3: u64, a4: u64, a5: u64, a6: u64, a7: u64, a8: u64,
)
    by (bit_vector)
    requires
        sq < 64,
        t < 64,
        dir < 8,
        empty | (1u64 << sq) == u64::MAX,
        a1 == (1u64 << sq) | (empty & step(1u64 << sq, dir)),
        a2 == a1 | (empty & step(a1, dir)),
        a3 == a2 | (empty & step(a2, dir)),
        a4 == a3 | (empty & step(a3, dir)),
        a5 == a4 | (empty & step(a4, dir)),
        a6 == a5 | (empty & step(a5, dir)),
        a7 == a6 | (empty & step(a6, dir)),
        a8 == step(a7, dir),
    ensures
        has_square(a7, t) == on_ray(sq, t, dir),
        has_square(a8, t) == (on_ray(sq, t, dir) && t != sq),
{
}

/// Flooding from one square through a board where every other square is
/// empty (the generator's own square may or may not be in `empty`) gives
/// exactly the ray from that square to the board's edge in that direction:
/// the square itself and at most seven more, with no wrap across files. One
/// further step of the flood is that ray without the starting square.
pub proof fn lemma_flood_open_board(sq: u64, dir: u8, empty: u64)
    requires
        sq < 64,
        dir < 8,
        empty | (1u64 << sq) == u64::MAX,
    ensures
        forall|t: u64| t < 64 ==> #[trigger] has_square(flood(1u64 << sq, empty, dir), t)
            == on_ray(sq, t, dir),
        forall|t: u64|
            t < 64 ==> #[trigger] has_square(step(flood(1u64 << sq, empty, dir), dir), t) == (
            on_ray(sq, t, dir) && t != sq),
{
    let g = 1u64 << sq;
    let a1 = grow(g, empty, dir);
    let a2 = grow(a1, empty, dir);
    let a3 = grow(a2, empty, dir);
    let a4 = grow(a3, empty, dir);
    let a5 = grow(a4, empty, dir);
    let a6 = grow(a5, empty, dir);
    let a7 = grow(a6, empty, dir);
    let a8 = step(a7, dir);
    assert forall|t: u64| t < 64 implies #[trigger] has_square(flood(g, empty, dir), t) == on_ray(
        sq,
        t,
        dir,
    ) by {
        lemma_open_chain_is_ray(sq, t, dir, empty, a1, a2, a3, a4, a5, a6, a7, a8);
    }
    assert forall|t: u64| t < 64 implies #[trigger] has_square(step(flood(g, empty, dir), dir), t)
        == (on_ray(sq, t, dir) && t != sq) by {
        lemma_open_chain_is_ray(sq, t, dir, empty, a1, a2, a3, a4, a5, a6, a7, a8);
    }
}

/// All ones where the two values are equal, else all zeros.
pub open spec fn eq_mask(x: u64, y: u64) -> u64 {
    if x == y {
        u64::MAX
    } else {
        0
    }
}

/// The squares a knight on any square of `x` attacks.
pub open spec fn knight_targets(x: u64) -> u64 {
    let n = step(x, NORTH);
    let s = step(x, SOUTH);
    let e = step(x, EAST);
    let w = step(x, WEST);
    (step(n, NORTH_EAST) | step(n, NORTH_WEST)) | (step(s, SOUTH_EAST) | step(s, SOUTH_WEST)) | (
    step(e, NORTH_EAST) | step(e, SOUTH_EAST)) | (step(w, NORTH_WEST) | step(w, SOUTH_WEST))
}

/// The squares a king on any square of `x` attacks.
pub open spec fn king_targets(x: u64) -> u64 {
    let n = step(x, NORTH);
    let s = step(x, SOUTH);
    let e = step(x, EAST);
    let w = step(x, WEST);
    n | s | e | w | step(n, EAST) | step(n, WEST) | step(s, EAST) | step(s, WEST)
}

/// Whether a knight on square `from` attacks square `to`: one file and two
/// ranks apart, or two files and one rank.
pub open spec fn knight_jump(from: u64, to: u64) -> bool {
    let ff = from % 8;
    let fr = from / 8;
    let tf = to % 8;
    let tr = to / 8;
    ((tf == ff + 1 || ff == tf + 1) && (tr == fr + 2 || fr == tr + 2)) || ((tf == ff + 2 || ff
        == tf + 2) && (tr == fr + 1 || fr == tr + 1))
}

/// Whether a king on square `from` attacks square `to`: a neighbouring square.
pub open spec fn king_step(from: u64, to: u64) -> bool {
    let ff = from % 8;
    let fr = from / 8;
    let tf = to % 8;
    let tr = to / 8;
    (tf == ff || tf == ff + 1 || ff == tf + 1) && (tr == fr || tr == fr + 1 || fr == tr + 1) && to
        != from
}

/// From one square, the knight pattern is exactly the squares a knight's
/// jump away, and the king pattern exactly the neighbouring squares; neither
/// wraps across the a/h files.
pub proof fn lemma_leaper_patterns(sq: u64, t: u64)
    requires
        sq < 64,
        t < 64,
    ensures
        has_square(knight_targets(1u64 << sq), t) == knight_jump(sq, t),
        has_square(king_targets(1u64 << sq), t) == king_step(sq, t),
{
    assert(has_square(knight_targets(1u64 << sq), t) == knight_jump(sq, t)) by (bit_vector)
        requires
            sq < 64,
            t < 64,
    ;
    assert(has_square(king_targets(1u64 << sq), t) == king_step(sq, t)) by (bit_vector)
        requires
            sq < 64,
            t < 64,
    ;
}

/// Four bitboards, one per slot (slots 0 to 3).
#[derive(Clone, Copy, Debug)]
pub struct Lane {
    pub s0: u64,
    pub s1: u64,
    pub s2: u64,
    pub s3: u64,
}

impl Lane {
    /// The bitboard in slot `i`.
    pub open spec fn slot(self, i: int) -> u64 {
        if i == 0 {
            self.s0
        } else if i == 1 {
            self.s1
        } else if i == 2 {
            self.s2
        } else {
            self.s3
        }
    }

    /// `f` applied to each slot on its own.
    pub open spec fn map(self, f: spec_fn(u64) -> u64) -> Lane {
        Lane { s0: f(self.s0), s1: f(self.s1), s2: f(self.s2), s3: f(self.s3) }
    }

    /// `f` applied to each pair of same-index slots.
    pub open spec fn zip(self, o: Lane, f: spec_fn(u64, u64) -> u64) -> Lane {
        Lane { s0: f(self.s0, o.s0), s1: f(self.s1, o.s1), s2: f(self.s2, o.s2), s3: f(self.s3, o.s3) }
    }

    /// The same value in every slot.
    pub open spec fn splat(v: u64) -> Lane {
        Lane { s0: v, s1: v, s2: v, s3: v }
    }

    /// Every slot stepped once in `dir`.
    pub open spec fn stepped(self, dir: u8) -> Lane {
        self.map(|x: u64| step(x, dir))
    }

    /// Every slot flooded in `dir` through the same slot of `empty`.
    pub open spec fn flooded(self, empty: Lane, dir: u8) -> Lane {
        self.zip(empty, |g: u64, e: u64| flood(g, e, dir))
    }

    /// Four distinct values, one per slot in order.
    pub fn new(a: u64, b: u64, c: u64, d: u64) -> (r: Lane)
        ensures
            r == (Lane { s0: a, s1: b, s2: c, s3: d }),
    {
        Lane { s0: a, s1: b, s2: c, s3: d }
    }

    /// `val` in all four slots.
    pub fn from_single(val: u64) -> (r: Lane)
        ensures
            r == Lane::splat(val),
    {
        Lane { s0: val, s1: val, s2: val, s3: val }
    }

    /// The bitboard in slot `index`.
    pub fn extract(&self, index: usize) -> (r: u64)
        requires
            index < 4,
        ensures
            r == self.slot(index as int),
    {
        if index == 0 {
            self.s0
        } else if index == 1 {
            self.s1
        } else if index == 2 {
            self.s2
        } else {
            self.s3
        }
    }

    pub fn bitand(self, rhs: Lane) -> (r: Lane)
        ensures
            r == self.zip(rhs, |x: u64, y: u64| x & y),
    {
        Lane { s0: self.s0 & rhs.s0, s1: self.s1 & rhs.s1, s2: self.s2 & rhs.s2, s3: self.s3 & rhs.s3 }
    }

    pub fn bitor(self, rhs: Lane) -> (r: Lane)
        ensures
            r == self.zip(rhs, |x: u64, y: u64| x | y),
    {
        Lane { s0: self.s0 | rhs.s0, s1: self.s1 | rhs.s1, s2: self.s2 | rhs.s2, s3: self.s3 | rhs.s3 }
    }

    pub fn bitxor(self, rhs: Lane) -> (r: Lane)
        ensures
            r == self.zip(rhs, |x: u64, y: u64| x ^ y),
    {
        Lane { s0: self.s0 ^ rhs.s0, s1: self.s1 ^ rhs.s1, s2: self.s2 ^ rhs.s2, s3: self.s3 ^ rhs.s3 }
    }

    pub fn not(self) -> (r: Lane)
        ensures
            r == self.map(|x: u64| !x),
    {
        Lane { s0: !self.s0, s1: !self.s1, s2: !self.s2, s3: !self.s3 }
    }

    /// Per slot, all ones where the two slots are equal, else all zeros.
    pub fn eq(&self, other: Lane) -> (r: Lane)
        ensures
            r == self.zip(other, |x: u64, y: u64| eq_mask(x, y)),
    {
        Lane {
            s0: if self.s0 == other.s0 { u64::MAX } else { 0 },
            s1: if self.s1 == other.s1 { u64::MAX } else { 0 },
            s2: if self.s2 == other.s2 { u64::MAX } else { 0 },
            s3: if self.s3 == other.s3 { u64::MAX } else { 0 },
        }
    }

    /// Per slot, all ones where the slot is zero, else all zeros.
    pub fn is_zero_mask(&self) -> (r: Lane)
        ensures
            r == self.map(|x: u64| eq_mask(x, 0)),
    {
        self.eq(Lane::from_single(0))
    }

    /// Per slot, all ones where the slot is not zero, else all zeros.
    pub fn is_not_zero_mask(&self) -> (r: Lane)
        ensures
            r == self.map(|x: u64| !eq_mask(x, 0)),
    {
        self.is_zero_mask().not()
    }

    pub fn shift_north(&self) -> (r: Lane)
        ensures
            r == self.stepped(NORTH),
    {
        Lane { s0: self.s0 << 8u64, s1: self.s1 << 8u64, s2: self.s2 << 8u64, s3: self.s3 << 8u64 }
    }

    pub fn shift_south(&self) -> (r: Lane)
        ensures
            r == self.stepped(SOUTH),
    {
        Lane { s0: self.s0 >> 8u64, s1: self.s1 >> 8u64, s2: self.s2 >> 8u64, s3: self.s3 >> 8u64 }
    }

    pub fn shift_east(&self) -> (r: Lane)
        ensures
            r == self.stepped(EAST),
    {
        Lane {
            s0: (self.s0 << 1u64) & NOT_A_FILE,
            s1: (self.s1 << 1u64) & NOT_A_FILE,
            s2: (self.s2 << 1u64) & NOT_A_FILE,
            s3: (self.s3 << 1u64) & NOT_A_FILE,
        }
    }

    pub fn shift_west(&self) -> (r: Lane)
        ensures
            r == self.stepped(WEST),
    {
        Lane {
            s0: (self.s0 >> 1u64) & NOT_H_FILE,
            s1: (self.s1 >> 1u64) & NOT_H_FILE,
            s2: (self.s2 >> 1u64) & NOT_H_FILE,
            s3: (self.s3 >> 1u64) & NOT_H_FILE,
        }
    }

    pub fn shift_north_east(&self) -> (r: Lane)
        ensures
            r == self.stepped(NORTH_EAST),
    {
        Lane {
            s0: (self.s0 << 9u64) & NOT_A_FILE,
            s1: (self.s1 << 9u64) & NOT_A_FILE,
            s2: (self.s2 << 9u64) & NOT_A_FILE,
            s3: (self.s3 << 9u64) & NOT_A_FILE,
        }
    }

    pub fn shift_north_west(&self) -> (r: Lane)
        ensures
            r == self.stepped(NORTH_WEST),
    {
        Lane {
            s0: (self.s0 << 7u64) & NOT_H_FILE,
            s1: (self.s1 << 7u64) & NOT_H_FILE,
            s2: (self.s2 << 7u64) & NOT_H_FILE,
            s3: (self.s3 << 7u64) & NOT_H_FILE,
        }
    }

    pub fn shift_south_east(&self) -> (r: Lane)
        ensures
            r == self.stepped(SOUTH_EAST),
    {
        Lane {
            s0: (self.s0 >> 7u64) & NOT_A_FILE,
            s1: (self.s1 >> 7u64) & NOT_A_FILE,
            s2: (self.s2 >> 7u64) & NOT_A_FILE,
            s3: (self.s3 >> 7u64) & NOT_A_FILE,
        }
    }

    pub fn shift_south_west(&self) -> (r: Lane)
        ensures
            r == self.stepped(SOUTH_WEST),
    {
        Lane {
            s0: (self.s0 >> 9u64) & NOT_H_FILE,
            s1: (self.s1 >> 9u64) & NOT_H_FILE,
            s2: (self.s2 >> 9u64) & NOT_H_FILE,
            s3: (self.s3 >> 9u64) & NOT_H_FILE,
        }
    }

    /// One step in the direction with code `dir`.
    pub fn shift(&self, dir: u8) -> (r: Lane)
        requires
            dir < 8,
        ensures
            r == self.stepped(dir),
    {
        if dir == NORTH {
            self.shift_north()
        } else if dir == SOUTH {
            self.shift_south()
        } else if dir == EAST {
            self.shift_east()
        } else if dir == WEST {
            self.shift_west()
        } else if dir == NORTH_EAST {
            self.shift_north_east()
        } else if dir == NORTH_WEST {
            self.shift_north_west()
        } else if dir == SOUTH_EAST {
            self.shift_south_east()
        } else {
            self.shift_south_west()
        }
    }

    /// Flood in `dir` from the squares of `self` through the squares of
    /// `empty`, doubling the step length each round (1, 2, then 4).
    pub fn fill(&self, empty: Lane, dir: u8) -> (r: Lane)
        requires
            dir < 8,
        ensures
            r == self.flooded(empty, dir),
    {
        let mut g = *self;
        g = g.bitor(empty.bitand(g.shift(dir)));
        let mut e = empty.bitand(empty.shift(dir));
        g = g.bitor(e.bitand(g.shift(dir).shift(dir)));
        e = e.bitand(e.shift(dir).shift(dir));
        g = g.bitor(e.bitand(g.shift(dir).shift(dir).shift(dir).shift(dir)));
        proof {
            lemma_doubling_flood(self.s0, empty.s0, dir);
            lemma_doubling_flood(self.s1, empty.s1, dir);
            lemma_doubling_flood(self.s2, empty.s2, dir);
            lemma_doubling_flood(self.s3, empty.s3, dir);
        }
        g
    }

    pub fn fill_north(&self, empty: Lane) -> (r: Lane)
        ensures
            r == self.flooded(empty, NORTH),
    {
        self.fill(empty, NORTH)
    }

    pub fn fill_south(&self, empty: Lane) -> (r: Lane)
        ensures
            r == self.flooded(empty, SOUTH),
    {
        self.fill(empty, SOUTH)
    }

    pub fn fill_east(&self, empty: Lane) -> (r: Lane)
        ensures
            r == self.flooded(empty, EAST),
    {
        self.fill(empty, EAST)
    }

    pub fn fill_west(&self, empty: Lane) -> (r: Lane)
        ensures
            r == self.flooded(empty, WEST),
    {
        self.fill(empty, WEST)
    }

    pub fn fill_north_east(&self, empty: Lane) -> (r: Lane)
        ensures
            r == self.flooded(empty, NORTH_EAST),
    {
        self.fill(empty, NORTH_EAST)
    }

    pub fn fill_north_west(&self, empty: Lane) -> (r: Lane)
        ensures
            r == self.flooded(empty, NORTH_WEST),
    {
        self.fill(empty, NORTH_WEST)
    }

    pub fn fill_south_east(&self, empty: Lane) -> (r: Lane)
        ensures
            r == self.flooded(empty, SOUTH_EAST),
    {
        self.fill(empty, SOUTH_EAST)
    }

    pub fn fill_south_west(&self, empty: Lane) -> (r: Lane)
        ensures
            r == self.flooded(empty, SOUTH_WEST),
    {
        self.fill(empty, SOUTH_WEST)
    }

    pub fn knight_attacks(&self) -> (r: Lane)
        ensures
            r == self.map(|x: u64| knight_targets(x)),
    {
        let n = self.shift_north();
        let s = self.shift_south();
        let e = self.shift_east();
        let w = self.shift_west();
        (n.shift_north_east().bitor(n.shift_north_west())).bitor(
            s.shift_south_east().bitor(s.shift_south_west()),
        ).bitor(e.shift_north_east().bitor(e.shift_south_east())).bitor(
            w.shift_north_west().bitor(w.shift_south_west()),
        )
    }

    pub fn king_attacks(&self) -> (r: Lane)
        ensures
            r == self.map(|x: u64| king_targets(x)),
    {
        let n = self.shift_north();
        let s = self.shift_south();
        let e = self.shift_east();
        let w = self.shift_west();
        n.bitor(s).bitor(e).bitor(w).bitor(n.shift_east()).bitor(n.shift_west()).bitor(
            s.shift_east(),
        ).bitor(s.shift_west())
    }
}

} // verus!
