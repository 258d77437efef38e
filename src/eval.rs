//! Static evaluation of all four slots' positions at once.
use vstd::prelude::*;
use crate::board::{Board, Planes};
use crate::movegen::{attack_set, get_attacks, squares_below};

verus! {

/// The number of squares set in `x`.
pub open spec fn popcount(x: u64) -> int {
    squares_below(x, 64).len() as int
}

proof fn lemma_squares_below_len(x: u64, k: nat)
    ensures
        squares_below(x, k).len() <= k,
    decreases k,
{
    if k > 0 {
        lemma_squares_below_len(x, (k - 1) as nat);
    }
}

/// The score of position `p` from white's side, given the squares each side
/// attacks: material (pawn 100, leaper 300, slider 500, king 10000), mobility
/// (5 per attacked square), tension (2 per square both sides attack, added),
/// and 10 for the side to move.
pub open spec fn score_with(p: Planes, wa: u64, ba: u64) -> int {
    (popcount(p.pawns & p.white) - popcount(p.pawns & p.black)) * 100 + (popcount(
        p.leapers & p.white,
    ) - popcount(p.leapers & p.black)) * 300 + (popcount(p.sliders & p.white) - popcount(
        p.sliders & p.black,
    )) * 500 + (popcount(p.kings & p.white) - popcount(p.kings & p.black)) * 10000 + (popcount(wa)
        - popcount(ba)) * 5 + popcount(wa & ba) * 2 + if p.white_to_move() {
        10
    } else {
        -10
    }
}

/// The score of position `p` from white's side.
#[verifier::opaque]
pub open spec fn position_score(p: Planes) -> int {
    score_with(p, attack_set(p, p.white, true), attack_set(p, p.black, false))
}

/// Every score lies well inside the range of `i32`.
pub proof fn lemma_score_bounds(p: Planes)
    ensures
        -1_000_000 <= position_score(p) <= 1_000_000,
{
    reveal(position_score);
    let wa = attack_set(p, p.white, true);
    let ba = attack_set(p, p.black, false);
    lemma_squares_below_len(p.pawns & p.white, 64);
    lemma_squares_below_len(p.pawns & p.black, 64);
    lemma_squares_below_len(p.leapers & p.white, 64);
    lemma_squares_below_len(p.leapers & p.black, 64);
    lemma_squares_below_len(p.sliders & p.white, 64);
    lemma_squares_below_len(p.sliders & p.black, 64);
    lemma_squares_below_len(p.kings & p.white, 64);
    lemma_squares_below_len(p.kings & p.black, 64);
    lemma_squares_below_len(wa, 64);
    lemma_squares_below_len(ba, 64);
    lemma_squares_below_len(wa & ba, 64);
}

/// The number of squares set in `x`.
fn count_squares(x: u64) -> (r: i32)
    ensures
        r == popcount(x),
        0 <= r <= 64,
{
    let mut c: i32 = 0;
    let mut k: u64 = 0;
    while k < 64
        invariant
            k <= 64,
            c == squares_below(x, k as nat).len(),
            0 <= c <= k,
        decreases 64 - k,
    {
        if (x >> k) & 1 == 1 {
            c = c + 1;
        }
        k = k + 1;
    }
    c
}

/// The score of each slot's position, from white's side.
pub fn evaluate(board: &Board) -> (r: [i32; 4])
    ensures
        forall|i: int| 0 <= i < 4 ==> #[trigger] r@[i] == position_score(board.at(i)),
{
    let mut scores = [0i32; 4];

    // The attack maps of all four slots come from one pass each.
    let white_attacks = get_attacks(board, board.white, true);
    let black_attacks = get_attacks(board, board.black, false);
    let tension_map = white_attacks.bitand(black_attacks);

    let mut i: usize = 0;
    while i < 4
        invariant
            i <= 4,
            forall|j: int|
                0 <= j < 4 ==> #[trigger] white_attacks.slot(j) == attack_set(
                    board.at(j),
                    board.white.slot(j),
                    true,
                ),
            forall|j: int|
                0 <= j < 4 ==> #[trigger] black_attacks.slot(j) == attack_set(
                    board.at(j),
                    board.black.slot(j),
                    false,
                ),
            tension_map == white_attacks.zip(black_attacks, |x: u64, y: u64| x & y),
            forall|j: int| 0 <= j < i ==> #[trigger] scores@[j] == position_score(board.at(j)),
        decreases 4 - i,
    {
        let p = Planes {
            pawns: board.pawns.extract(i),
            leapers: board.leapers.extract(i),
            sliders: board.sliders.extract(i),
            kings: board.kings.extract(i),
            white: board.white.extract(i),
            black: board.black.extract(i),
            diagonal: board.diagonal.extract(i),
            orthogonal: board.orthogonal.extract(i),
            metadata: board.metadata.extract(i),
        };
        let w_pawns = count_squares(p.pawns & p.white);
        let b_pawns = count_squares(p.pawns & p.black);
        let w_leapers = count_squares(p.leapers & p.white);
        let b_leapers = count_squares(p.leapers & p.black);
        let w_sliders = count_squares(p.sliders & p.white);
        let b_sliders = count_squares(p.sliders & p.black);
        let w_kings = count_squares(p.kings & p.white);
        let b_kings = count_squares(p.kings & p.black);

        let mut score: i32 = (w_pawns - b_pawns) * 100;
        score = score + (w_leapers - b_leapers) * 300;
        score = score + (w_sliders - b_sliders) * 500;
        score = score + (w_kings - b_kings) * 10000;

        let wa = white_attacks.extract(i);
        let ba = black_attacks.extract(i);
        let w_mobility = count_squares(wa);
        let b_mobility = count_squares(ba);
        score = score + (w_mobility - b_mobility) * 5;

        let tension = count_squares(tension_map.extract(i));
        score = score + tension * 2;

        let white_turn = (p.metadata & (1u64 << crate::board::META_TURN)) == 0;
        proof {
            assert(1u64 << 0u64 == 1) by (bit_vector);
            reveal(position_score);
            assert(p == board.at(i as int));
            assert(tension_map.slot(i as int) == wa & ba);
        }
        if white_turn {
            score = score + 10;
        } else {
            score = score - 10;
        }
        scores[i] = score;
        i = i + 1;
    }
    scores
}

} // verus!
