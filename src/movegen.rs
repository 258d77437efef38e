//! Attack maps over all four slots, and move lists for one slot.
use vstd::prelude::*;
use crate::lane::{
    Lane, step, flood, has_square, knight_targets, king_targets, NOT_A_FILE, NOT_H_FILE, NORTH,
    SOUTH, EAST, WEST, NORTH_EAST, NORTH_WEST, SOUTH_EAST, SOUTH_WEST,
};
use crate::board::{Board, Planes, at_most_one_square, lemma_move_keeps_occupancy};

verus! {

/// A batched move: per slot, the origin and destination squares of that
/// slot's half-move, each a single bit (or zero where the slot has none).
#[derive(Clone, Copy, Debug)]
pub struct MoveField {
    pub from: Lane,
    pub to: Lane,
}

impl MoveField {
    /// The move from `from` to `to` in all four slots.
    pub open spec fn single(from: u64, to: u64) -> MoveField {
        MoveField { from: Lane::splat(from), to: Lane::splat(to) }
    }
}

/// Piece classes, in the order moves are listed.
pub const PAWN: u8 = 0;
pub const LEAPER: u8 = 1;
pub const SLIDER: u8 = 2;
pub const KING: u8 = 3;

/// The squares of rank 2 and of rank 7, where pawns start.
pub const RANK_2: u64 = 0x0000_0000_0000_ff00;
pub const RANK_7: u64 = 0x00ff_0000_0000_0000;

/// The squares a slider on a square of `g` attacks in `dir`: its flood
/// through the empty squares, one step further (the first blocker).
pub open spec fn ray(g: u64, empty: u64, dir: u8) -> u64 {
    step(flood(g, empty, dir), dir)
}

/// The squares attacked, per slot, by the pieces of `us`, with pawns of the
/// color `white` says. Own-occupied squares are not told apart.
pub open spec fn attack_set(p: Planes, us: u64, white: bool) -> u64 {
    let empty = !p.occupancy();
    let pawns = p.pawns & us;
    let diag = (p.sliders & us) & p.diagonal;
    let ortho = (p.sliders & us) & p.orthogonal;
    let pawn_attacks = if white {
        step(pawns, NORTH_EAST) | step(pawns, NORTH_WEST)
    } else {
        step(pawns, SOUTH_EAST) | step(pawns, SOUTH_WEST)
    };
    pawn_attacks | knight_targets(p.leapers & us) | ray(diag, empty, NORTH_EAST) | ray(
        diag,
        empty,
        NORTH_WEST,
    ) | ray(diag, empty, SOUTH_EAST) | ray(diag, empty, SOUTH_WEST) | ray(ortho, empty, NORTH)
        | ray(ortho, empty, SOUTH) | ray(ortho, empty, EAST) | ray(ortho, empty, WEST)
        | king_targets(p.kings & us)
}

/// The squares attacked by the pieces of `us` in each slot's position.
pub fn get_attacks(board: &Board, us: Lane, is_white: bool) -> (r: Lane)
    ensures
        forall|i: int|
            0 <= i < 4 ==> #[trigger] r.slot(i) == attack_set(board.at(i), us.slot(i), is_white),
{
    let occupied = board.occupied();
    let empty = occupied.not();

    let pawns = board.pawns.bitand(us);
    let leapers = board.leapers.bitand(us);
    let sliders = board.sliders.bitand(us);
    let kings = board.kings.bitand(us);

    let mut attacks = if is_white {
        pawns.shift_north_east().bitor(pawns.shift_north_west())
    } else {
        pawns.shift_south_east().bitor(pawns.shift_south_west())
    };
    attacks = attacks.bitor(leapers.knight_attacks());

    let diag = sliders.bitand(board.diagonal);
    let ortho = sliders.bitand(board.orthogonal);

    attacks = attacks.bitor(diag.fill_north_east(empty).shift_north_east());
    attacks = attacks.bitor(diag.fill_north_west(empty).shift_north_west());
    attacks = attacks.bitor(diag.fill_south_east(empty).shift_south_east());
    attacks = attacks.bitor(diag.fill_south_west(empty).shift_south_west());

    attacks = attacks.bitor(ortho.fill_north(empty).shift_north());
    attacks = attacks.bitor(ortho.fill_south(empty).shift_south());
    attacks = attacks.bitor(ortho.fill_east(empty).shift_east());
    attacks = attacks.bitor(ortho.fill_west(empty).shift_west());

    attacks = attacks.bitor(kings.king_attacks());
    proof {
        assert(occupied.slot(0) == board.at(0).occupancy());
        assert(empty.slot(0) == !board.at(0).occupancy());
        assert(occupied.slot(1) == board.at(1).occupancy());
        assert(empty.slot(1) == !board.at(1).occupancy());
        assert(occupied.slot(2) == board.at(2).occupancy());
        assert(empty.slot(2) == !board.at(2).occupancy());
        assert(occupied.slot(3) == board.at(3).occupancy());
        assert(empty.slot(3) == !board.at(3).occupancy());
        assert(attacks.slot(0) == attack_set(board.at(0), us.slot(0), is_white));
        assert(attacks.slot(1) == attack_set(board.at(1), us.slot(1), is_white));
        assert(attacks.slot(2) == attack_set(board.at(2), us.slot(2), is_white));
        assert(attacks.slot(3) == attack_set(board.at(3), us.slot(3), is_white));
    }
    attacks
}

/// The side to move's pieces in position `p`.
pub open spec fn own(p: Planes) -> u64 {
    if p.white_to_move() {
        p.white
    } else {
        p.black
    }
}

/// The opponent's pieces in position `p`.
pub open spec fn opponent(p: Planes) -> u64 {
    if p.white_to_move() {
        p.black
    } else {
        p.white
    }
}

/// Where the pawn on square `from` may go: one step forward onto an empty
/// square, two from its starting rank when both squares are empty, and one
/// step diagonally forward onto a square of `them`.
pub open spec fn pawn_targets(from: u64, white: bool, empty: u64, them: u64) -> u64 {
    if white {
        let push1 = from << 8u64;
        let push2 = if from & RANK_2 != 0 && push1 & empty != 0 {
            (push1 << 8u64) & empty
        } else {
            0
        };
        (push1 & empty) | push2 | (((from << 7u64) & NOT_H_FILE & them) | ((from << 9u64)
            & NOT_A_FILE & them))
    } else {
        let push1 = from >> 8u64;
        let push2 = if from & RANK_7 != 0 && push1 & empty != 0 {
            (push1 >> 8u64) & empty
        } else {
            0
        };
        (push1 & empty) | push2 | (((from >> 7u64) & NOT_A_FILE & them) | ((from >> 9u64)
            & NOT_H_FILE & them))
    }
}

/// The squares a slider on square `from` attacks along its diagonals (when
/// `diag`) and along its rank and file (when `ortho`).
pub open spec fn slider_targets(from: u64, empty: u64, diag: bool, ortho: bool) -> u64 {
    let d = if diag {
        ray(from, empty, NORTH_EAST) | ray(from, empty, NORTH_WEST) | ray(from, empty, SOUTH_EAST)
            | ray(from, empty, SOUTH_WEST)
    } else {
        0
    };
    let o = if ortho {
        ray(from, empty, NORTH) | ray(from, empty, SOUTH) | ray(from, empty, EAST) | ray(
            from,
            empty,
            WEST,
        )
    } else {
        0
    };
    d | o
}

/// The side to move's pieces of class `kind`.
pub open spec fn pieces_of(p: Planes, kind: u8) -> u64 {
    if kind == PAWN {
        p.pawns & own(p)
    } else if kind == LEAPER {
        p.leapers & own(p)
    } else if kind == SLIDER {
        p.sliders & own(p)
    } else {
        p.kings & own(p)
    }
}

/// The pseudo-legal destinations of the piece of class `kind` on square
/// `from` for the side to move.
pub open spec fn piece_targets(p: Planes, kind: u8, from: u64) -> u64 {
    let empty = !p.occupancy();
    if kind == PAWN {
        pawn_targets(from, p.white_to_move(), empty, opponent(p))
    } else if kind == LEAPER {
        knight_targets(from) & !own(p)
    } else if kind == SLIDER {
        slider_targets(from, empty, from & p.diagonal != 0, from & p.orthogonal != 0) & !own(p)
    } else {
        king_targets(from) & !own(p)
    }
}

/// The squares of `x` below square `k`, each as a single bit, ascending.
pub open spec fn squares_below(x: u64, k: nat) -> Seq<u64>
    decreases k,
{
    if k == 0 {
        seq![]
    } else {
        let prev = squares_below(x, (k - 1) as nat);
        if has_square(x, (k - 1) as u64) {
            prev.push(1u64 << (k - 1) as u64)
        } else {
            prev
        }
    }
}

/// The moves from `from` to each square of `targets`, ascending.
pub open spec fn moves_from(from: u64, targets: u64) -> Seq<(u64, u64)> {
    squares_below(targets, 64).map_values(|t: u64| (from, t))
}

/// The moves of the pieces of class `kind` standing below square `k`, by
/// ascending origin.
pub open spec fn kind_moves(p: Planes, kind: u8, k: nat) -> Seq<(u64, u64)>
    decreases k,
{
    if k == 0 {
        seq![]
    } else {
        let prev = kind_moves(p, kind, (k - 1) as nat);
        let from = 1u64 << (k - 1) as u64;
        if has_square(pieces_of(p, kind), (k - 1) as u64) {
            prev + moves_from(from, piece_targets(p, kind, from))
        } else {
            prev
        }
    }
}

/// Every pseudo-legal move of the side to move in position `p`, as (origin,
/// destination) bits: pawns, then leapers, then sliders, then kings; by
/// ascending origin within a class, then by ascending destination.
pub open spec fn lane_moves(p: Planes) -> Seq<(u64, u64)> {
    kind_moves(p, PAWN, 64) + kind_moves(p, LEAPER, 64) + kind_moves(p, SLIDER, 64) + kind_moves(
        p,
        KING,
        64,
    )
}

proof fn lemma_kind_moves_origins(p: Planes, kind: u8, k: nat)
    requires
        k <= 64,
    ensures
        forall|i: int|
            0 <= i < kind_moves(p, kind, k).len() ==> at_most_one_square(
                #[trigger] kind_moves(p, kind, k)[i].0,
            ),
    decreases k,
{
    reveal(kind_moves);
    if k > 0 {
        let j = (k - 1) as u64;
        lemma_kind_moves_origins(p, kind, (k - 1) as nat);
        assert(at_most_one_square(1u64 << j)) by (bit_vector)
            requires
                j < 64,
        ;
        let prev = kind_moves(p, kind, (k - 1) as nat);
        let from = 1u64 << j;
        let here = moves_from(from, piece_targets(p, kind, from));
        assert forall|i: int| 0 <= i < here.len() implies #[trigger] here[i].0 == from by {}
        if has_square(pieces_of(p, kind), j) {
            assert forall|i: int| 0 <= i < kind_moves(p, kind, k).len() implies at_most_one_square(
                #[trigger] kind_moves(p, kind, k)[i].0,
            ) by {
                if i >= prev.len() {
                    assert(kind_moves(p, kind, k)[i] == here[i - prev.len()]);
                }
            }
        }
    }
}

/// Every generated move starts from a single square, so playing any of them
/// keeps the occupancy invariant: together with `Board::from_fen`, which
/// establishes the invariant, every position reached by generated moves
/// satisfies it.
pub proof fn lemma_generated_move_keeps_occupancy(p: Planes, i: int)
    requires
        p.occupancy_ok(),
        0 <= i < lane_moves(p).len(),
    ensures
        at_most_one_square(lane_moves(p)[i].0),
        p.moved(lane_moves(p)[i].0, lane_moves(p)[i].1).occupancy_ok(),
{
    let a = kind_moves(p, PAWN, 64);
    let b = kind_moves(p, LEAPER, 64);
    let c = kind_moves(p, SLIDER, 64);
    let d = kind_moves(p, KING, 64);
    lemma_kind_moves_origins(p, PAWN, 64);
    lemma_kind_moves_origins(p, LEAPER, 64);
    lemma_kind_moves_origins(p, SLIDER, 64);
    lemma_kind_moves_origins(p, KING, 64);
    let ms = lane_moves(p);
    if i < a.len() {
        assert(ms[i] == a[i]);
    } else if i < a.len() + b.len() {
        assert(ms[i] == b[i - a.len()]);
    } else if i < a.len() + b.len() + c.len() {
        assert(ms[i] == c[i - a.len() - b.len()]);
    } else {
        assert(ms[i] == d[i - a.len() - b.len() - c.len()]);
    }
    lemma_move_keeps_occupancy(p, ms[i].0, ms[i].1);
}

/// The moves of `ms`, each in all four slots.
pub open spec fn as_fields(ms: Seq<(u64, u64)>) -> Seq<MoveField> {
    ms.map_values(|m: (u64, u64)| MoveField::single(m.0, m.1))
}

/// The moves of the side to move in slot `lane_idx`'s position, in the order
/// of `lane_moves`, each as a move in all four slots.
pub fn generate_moves_for_lane(board: &Board, lane_idx: usize) -> (r: Vec<MoveField>)
    requires
        lane_idx < 4,
    ensures
        r@ == as_fields(lane_moves(board.at(lane_idx as int))),
{
    let p = Planes {
        pawns: board.pawns.extract(lane_idx),
        leapers: board.leapers.extract(lane_idx),
        sliders: board.sliders.extract(lane_idx),
        kings: board.kings.extract(lane_idx),
        white: board.white.extract(lane_idx),
        black: board.black.extract(lane_idx),
        diagonal: board.diagonal.extract(lane_idx),
        orthogonal: board.orthogonal.extract(lane_idx),
        metadata: board.metadata.extract(lane_idx),
    };
    let mut move_fields: Vec<MoveField> = Vec::new();
    add_kind_moves(&mut move_fields, &p, PAWN);
    add_kind_moves(&mut move_fields, &p, LEAPER);
    add_kind_moves(&mut move_fields, &p, SLIDER);
    add_kind_moves(&mut move_fields, &p, KING);
    proof {
        let ms = lane_moves(p);
        assert(as_fields(ms) =~= as_fields(kind_moves(p, PAWN, 64)) + as_fields(
            kind_moves(p, LEAPER, 64),
        ) + as_fields(kind_moves(p, SLIDER, 64)) + as_fields(kind_moves(p, KING, 64)));
    }
    move_fields
}

/// Appends the moves of the side to move's pieces of class `kind`.
fn add_kind_moves(moves: &mut Vec<MoveField>, p: &Planes, kind: u8)
    requires
        kind < 4,
    ensures
        final(moves)@ == old(moves)@ + as_fields(kind_moves(*p, kind, 64)),
{
    let white_turn = (p.metadata & (1u64 << crate::board::META_TURN)) == 0;
    proof {
        assert(1u64 << 0u64 == 1) by (bit_vector);
    }
    let us = if white_turn { p.white } else { p.black };
    let them = if white_turn { p.black } else { p.white };
    let empty = !(p.pawns | p.leapers | p.sliders | p.kings);
    let pieces = if kind == PAWN {
        p.pawns & us
    } else if kind == LEAPER {
        p.leapers & us
    } else if kind == SLIDER {
        p.sliders & us
    } else {
        p.kings & us
    };
    proof {
        reveal(kind_moves);
    }
    let mut k: u64 = 0;
    while k < 64
        invariant
            kind < 4,
            k <= 64,
            pieces == pieces_of(*p, kind),
            white_turn == p.white_to_move(),
            us == own(*p),
            them == opponent(*p),
            empty == !p.occupancy(),
            moves@ == old(moves)@ + as_fields(kind_moves(*p, kind, k as nat)),
        decreases 64 - k,
    {
        let ghost before = moves@;
        let from_bit = 1u64 << k;
        if (pieces >> k) & 1 == 1 {
            let targets = if kind == PAWN {
                pawn_targets_of(from_bit, white_turn, empty, them)
            } else if kind == LEAPER {
                Lane::from_single(from_bit).knight_attacks().extract(0) & !us
            } else if kind == SLIDER {
                slider_targets_of(
                    from_bit,
                    empty,
                    from_bit & p.diagonal != 0,
                    from_bit & p.orthogonal != 0,
                ) & !us
            } else {
                Lane::from_single(from_bit).king_attacks().extract(0) & !us
            };
            add_moves(moves, from_bit, targets);
            proof {
                reveal(kind_moves);
                assert(as_fields(kind_moves(*p, kind, (k + 1) as nat)) =~= as_fields(
                    kind_moves(*p, kind, k as nat),
                ) + as_fields(moves_from(from_bit, targets)));
            }
        }
        k = k + 1;
    }
}

fn pawn_targets_of(from: u64, white: bool, empty: u64, them: u64) -> (r: u64)
    ensures
        r == pawn_targets(from, white, empty, them),
{
    if white {
        let push1 = from << 8u64;
        let push2 = if from & RANK_2 != 0 && push1 & empty != 0 {
            (push1 << 8u64) & empty
        } else {
            0
        };
        (push1 & empty) | push2 | (((from << 7u64) & NOT_H_FILE & them) | ((from << 9u64)
            & NOT_A_FILE & them))
    } else {
        let push1 = from >> 8u64;
        let push2 = if from & RANK_7 != 0 && push1 & empty != 0 {
            (push1 >> 8u64) & empty
        } else {
            0
        };
        (push1 & empty) | push2 | (((from >> 7u64) & NOT_A_FILE & them) | ((from >> 9u64)
            & NOT_H_FILE & them))
    }
}

fn slider_targets_of(from: u64, empty: u64, diag: bool, ortho: bool) -> (r: u64)
    ensures
        r == slider_targets(from, empty, diag, ortho),
{
    let l_from = Lane::from_single(from);
    let l_empty = Lane::from_single(empty);
    let d = if diag {
        l_from.fill_north_east(l_empty).shift_north_east().bitor(
            l_from.fill_north_west(l_empty).shift_north_west(),
        ).bitor(l_from.fill_south_east(l_empty).shift_south_east()).bitor(
            l_from.fill_south_west(l_empty).shift_south_west(),
        ).extract(0)
    } else {
        0
    };
    let o = if ortho {
        l_from.fill_north(l_empty).shift_north().bitor(l_from.fill_south(l_empty).shift_south()).bitor(
            l_from.fill_east(l_empty).shift_east(),
        ).bitor(l_from.fill_west(l_empty).shift_west()).extract(0)
    } else {
        0
    };
    d | o
}

/// Appends the moves from `from_bit` to each square of `targets`, ascending.
fn add_moves(moves: &mut Vec<MoveField>, from_bit: u64, targets: u64)
    ensures
        final(moves)@ == old(moves)@ + as_fields(moves_from(from_bit, targets)),
{
    let mut k: u64 = 0;
    while k < 64
        invariant
            k <= 64,
            moves@ == old(moves)@ + as_fields(
                squares_below(targets, k as nat).map_values(|t: u64| (from_bit, t)),
            ),
        decreases 64 - k,
    {
        if (targets >> k) & 1 == 1 {
            let to_bit = 1u64 << k;
            moves.push(MoveField { from: Lane::from_single(from_bit), to: Lane::from_single(to_bit) });
        }
        proof {
            assert(as_fields(squares_below(targets, (k + 1) as nat).map_values(|t: u64| (from_bit, t)))
                =~= moves@.subrange(old(moves)@.len() as int, moves@.len() as int));
            assert(moves@ =~= old(moves)@ + moves@.subrange(old(moves)@.len() as int, moves@.len() as int));
        }
        k = k + 1;
    }
}

/// Where slot `t` of batch `j` takes its move from, when `n` moves are
/// grouped four at a time: move `4j + t`, or the last move of the list
/// where the list has run out.
pub open spec fn packed_index(n: int, j: int, t: int) -> int {
    if 4 * j + t < n {
        4 * j + t
    } else {
        n - 1
    }
}

/// Groups the moves four at a time into batched moves; slot `t` of batch `j`
/// holds (from slot 0) move `packed_index(n, j, t)`, so the slots a short
/// last group cannot fill repeat the last move of the list (not a no-op).
pub fn pack_move_fields(moves: &[MoveField]) -> (r: Vec<MoveField>)
    ensures
        r@.len() == (moves@.len() + 3) / 4,
        forall|j: int, t: int|
            0 <= j < r@.len() && 0 <= t < 4 ==> #[trigger] r@[j].from.slot(t) == moves@[packed_index(
                moves@.len() as int,
                j,
                t,
            )].from.slot(0),
        forall|j: int, t: int|
            0 <= j < r@.len() && 0 <= t < 4 ==> #[trigger] r@[j].to.slot(t) == moves@[packed_index(
                moves@.len() as int,
                j,
                t,
            )].to.slot(0),
{
    let n = moves.len();
    let batches = n / 4 + if n % 4 == 0 { 0 } else { 1 };
    let mut packed: Vec<MoveField> = Vec::new();
    let mut j: usize = 0;
    while j < batches
        invariant
            n == moves@.len(),
            batches == (n + 3) / 4,
            j <= batches,
            packed@.len() == j,
            forall|b: int, t: int|
                0 <= b < packed@.len() && 0 <= t < 4 ==> #[trigger] packed@[b].from.slot(t)
                    == moves@[packed_index(moves@.len() as int, b, t)].from.slot(0),
            forall|b: int, t: int|
                0 <= b < packed@.len() && 0 <= t < 4 ==> #[trigger] packed@[b].to.slot(t)
                    == moves@[packed_index(moves@.len() as int, b, t)].to.slot(0),
        decreases batches - j,
    {
        let i = 4 * j;
        let last = moves[n - 1];
        let m1 = moves[i];
        let m2 = if i + 1 < n { moves[i + 1] } else { last };
        let m3 = if i + 2 < n { moves[i + 2] } else { last };
        let m4 = if i + 3 < n { moves[i + 3] } else { last };
        packed.push(
            MoveField {
                from: Lane::new(
                    m1.from.extract(0),
                    m2.from.extract(0),
                    m3.from.extract(0),
                    m4.from.extract(0),
                ),
                to: Lane::new(m1.to.extract(0), m2.to.extract(0), m3.to.extract(0), m4.to.extract(0)),
            },
        );
        j = j + 1;
    }
    packed
}

} // verus!
