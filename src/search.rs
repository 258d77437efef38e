//! A greedy depth-limited search that uses the four slots to follow four
//! candidate moves at once.
//!
//! Only the top ply tries every move. Below it each slot follows one forced
//! line: the first move its own generator lists, not a minimax choice.
use vstd::prelude::*;
use crate::board::{Board, Planes, META_TURN};
use crate::eval::{evaluate, position_score, lemma_score_bounds};
use crate::lane::Lane;
use crate::movegen::{
    MoveField, as_fields, generate_moves_for_lane, lane_moves, pack_move_fields, packed_index,
};

verus! {

/// The lowest score the search starts from; every real score beats it.
pub const SCORE_FLOOR: i32 = -2000000;

/// Whether move `m` lands on a square of `occupied`.
pub open spec fn is_capture(occupied: u64, m: (u64, u64)) -> bool {
    occupied & m.1 != 0
}

/// The captures of `ms`, in their order.
pub open spec fn captures(occupied: u64, ms: Seq<(u64, u64)>) -> Seq<(u64, u64)> {
    ms.filter(|m: (u64, u64)| is_capture(occupied, m))
}

/// The moves of `ms` that capture nothing, in their order.
pub open spec fn quiet_moves(occupied: u64, ms: Seq<(u64, u64)>) -> Seq<(u64, u64)> {
    ms.filter(|m: (u64, u64)| !is_capture(occupied, m))
}

/// The moves `ms`, captures first, each group in the order given.
pub open spec fn captures_first(occupied: u64, ms: Seq<(u64, u64)>) -> Seq<(u64, u64)> {
    captures(occupied, ms) + quiet_moves(occupied, ms)
}

/// The moves of `p`, captures first, otherwise in generation order.
pub open spec fn ordered_moves(p: Planes) -> Seq<(u64, u64)> {
    captures_first(p.occupancy(), lane_moves(p))
}

/// The first move generated in `p`, or (0, 0) when there is none.
pub open spec fn first_move(p: Planes) -> (u64, u64) {
    if lane_moves(p).len() > 0 {
        lane_moves(p)[0]
    } else {
        (0, 0)
    }
}

/// Whether any slot's side to move has a move.
pub open spec fn any_moves(b: Board) -> bool {
    lane_moves(b.at(0)).len() > 0 || lane_moves(b.at(1)).len() > 0 || lane_moves(b.at(2)).len() > 0
        || lane_moves(b.at(3)).len() > 0
}

/// Each slot's first move, as one batched move.
pub open spec fn first_moves(b: Board) -> MoveField {
    MoveField {
        from: Lane {
            s0: first_move(b.at(0)).0,
            s1: first_move(b.at(1)).0,
            s2: first_move(b.at(2)).0,
            s3: first_move(b.at(3)).0,
        },
        to: Lane {
            s0: first_move(b.at(0)).1,
            s1: first_move(b.at(1)).1,
            s2: first_move(b.at(2)).1,
            s3: first_move(b.at(3)).1,
        },
    }
}

/// The four slots' scores.
pub open spec fn board_scores(b: Board) -> Seq<int> {
    seq![
        position_score(b.at(0)),
        position_score(b.at(1)),
        position_score(b.at(2)),
        position_score(b.at(3)),
    ]
}

/// The scores at the end of each slot's forced line: while depth is left
/// and some slot has a move, every slot plays its first move (a slot with
/// none stands still but for the side to move), then the board is scored.
pub open spec fn descend(b: Board, depth: int) -> Seq<int>
    decreases depth,
{
    if depth <= 0 || !any_moves(b) {
        board_scores(b)
    } else {
        let mv = first_moves(b);
        descend(b.moved_board(mv.from, mv.to), depth - 1)
    }
}

/// Batch `j` of the moves `ms`, grouped as `pack_move_fields` groups them.
pub open spec fn batch(ms: Seq<(u64, u64)>, j: int) -> MoveField {
    let n = ms.len() as int;
    MoveField {
        from: Lane {
            s0: ms[packed_index(n, j, 0)].0,
            s1: ms[packed_index(n, j, 1)].0,
            s2: ms[packed_index(n, j, 2)].0,
            s3: ms[packed_index(n, j, 3)].0,
        },
        to: Lane {
            s0: ms[packed_index(n, j, 0)].1,
            s1: ms[packed_index(n, j, 1)].1,
            s2: ms[packed_index(n, j, 2)].1,
            s3: ms[packed_index(n, j, 3)].1,
        },
    }
}

/// The better of the best so far and a candidate: the candidate only when
/// its score is strictly higher.
pub open spec fn pick(best: ((u64, u64), int), cand: (u64, u64), score: int) -> ((u64, u64), int) {
    if score > best.1 {
        (cand, score)
    } else {
        best
    }
}

/// The best so far after the first `k` slots of batch `mv`, whose lines
/// scored `sc`, scores taken from the side of the mover (`white`).
pub open spec fn pick_in_batch(
    best: ((u64, u64), int),
    mv: MoveField,
    sc: Seq<int>,
    white: bool,
    k: nat,
) -> ((u64, u64), int)
    decreases k,
{
    if k == 0 {
        best
    } else {
        let i = k - 1;
        pick(
            pick_in_batch(best, mv, sc, white, (k - 1) as nat),
            (mv.from.slot(i), mv.to.slot(i)),
            if white {
                sc[i]
            } else {
                -sc[i]
            },
        )
    }
}

/// The best move and score after the first `j` batches of `ms`.
pub open spec fn best_after(b: Board, depth: int, ms: Seq<(u64, u64)>, j: nat) -> ((u64, u64), int)
    decreases j,
{
    if j == 0 {
        (ms[0], SCORE_FLOOR as int)
    } else {
        let mv = batch(ms, j - 1);
        let sc = descend(b.moved_board(mv.from, mv.to), depth - 1);
        pick_in_batch(best_after(b, depth, ms, (j - 1) as nat), mv, sc, b.at(0).white_to_move(), 4)
    }
}

/// The move `search` picks for slot 0, or (0, 0) when slot 0 has none.
pub open spec fn search_move(b: Board, depth: int) -> (u64, u64) {
    let ms = ordered_moves(b.at(0));
    if ms.len() == 0 {
        (0, 0)
    } else {
        best_after(b, depth, ms, ((ms.len() + 3) / 4) as nat).0
    }
}

/// What `search` returns: its move in all four slots.
pub open spec fn search_result(b: Board, depth: int) -> MoveField {
    MoveField::single(search_move(b, depth).0, search_move(b, depth).1)
}

proof fn lemma_descend_bounds(b: Board, depth: int)
    ensures
        forall|i: int|
            0 <= i < 4 ==> -1_000_000 <= #[trigger] descend(b, depth)[i] <= 1_000_000,
        descend(b, depth).len() == 4,
    decreases depth,
{
    if depth <= 0 || !any_moves(b) {
        lemma_score_bounds(b.at(0));
        lemma_score_bounds(b.at(1));
        lemma_score_bounds(b.at(2));
        lemma_score_bounds(b.at(3));
    } else {
        let mv = first_moves(b);
        lemma_descend_bounds(b.moved_board(mv.from, mv.to), depth - 1);
    }
}

/// Two searches of the same position to the same depth return the same move.
pub proof fn lemma_search_deterministic(board: Board, depth: i32, r1: MoveField, r2: MoveField)
    requires
        r1 == search_result(board, depth as int),
        r2 == search_result(board, depth as int),
    ensures
        r1 == r2,
{
}

/// At depth 0 or below, `search` scores each batch by the static score of
/// the position right after it: every line stops at once.
pub proof fn lemma_shallow_search_is_static(b: Board, depth: int, mv: MoveField)
    requires
        depth <= 0,
    ensures
        descend(b.moved_board(mv.from, mv.to), depth - 1) == board_scores(
            b.moved_board(mv.from, mv.to),
        ),
{
    reveal_with_fuel(descend, 1);
}

proof fn lemma_descend_floor(b: Board, d1: int, d2: int)
    requires
        d1 <= 0,
        d2 <= 0,
    ensures
        descend(b, d1) == descend(b, d2),
{
    reveal_with_fuel(descend, 1);
}

/// The first move generated in slot `i`'s position, or (0, 0), and whether
/// there is one.
fn first_move_of(board: &Board, i: usize) -> (r: (u64, u64, bool))
    requires
        i < 4,
    ensures
        (r.0, r.1) == first_move(board.at(i as int)),
        r.2 == (lane_moves(board.at(i as int)).len() > 0),
{
    let moves = generate_moves_for_lane(board, i);
    if moves.len() > 0 {
        (moves[0].from.extract(0), moves[0].to.extract(0), true)
    } else {
        (0, 0, false)
    }
}

/// Each slot's line: the first move of every slot, played together, to
/// `depth` plies or until no slot can move, then the four scores.
fn vpts_recurse(board: &Board, depth: i32) -> (r: [i32; 4])
    ensures
        forall|i: int| 0 <= i < 4 ==> #[trigger] r@[i] == descend(*board, depth as int)[i],
    decreases depth,
{
    if depth <= 0 {
        return evaluate(board);
    }
    let (f0, t0, any0) = first_move_of(board, 0);
    let (f1, t1, any1) = first_move_of(board, 1);
    let (f2, t2, any2) = first_move_of(board, 2);
    let (f3, t3, any3) = first_move_of(board, 3);
    if !(any0 || any1 || any2 || any3) {
        return evaluate(board);
    }
    let pm = MoveField { from: Lane::new(f0, f1, f2, f3), to: Lane::new(t0, t1, t2, t3) };
    proof {
        assert(pm == first_moves(*board));
    }
    let mut next_board = *board;
    next_board.apply_move(&pm);
    vpts_recurse(&next_board, depth - 1)
}

/// The moves of `generated`, those landing on a square of `occupied` first,
/// each group in the order given.
fn order_captures_first(generated: &Vec<MoveField>, occupied: u64, ms: Ghost<Seq<(u64, u64)>>) -> (r:
    Vec<MoveField>)
    requires
        generated@ == as_fields(ms@),
    ensures
        r@ == as_fields(captures_first(occupied, ms@)),
        r@.len() == generated@.len(),
{
    let ghost ms = ms@;
    let mut moves: Vec<MoveField> = Vec::new();
    let mut k: usize = 0;
    while k < generated.len()
        invariant
            generated@ == as_fields(ms),
            k <= generated@.len(),
            moves@ == as_fields(captures(occupied, ms.take(k as int))),
        decreases generated@.len() - k,
    {
        let m = generated[k];
        proof {
            reveal(Seq::filter);
            assert(ms.take(k + 1).drop_last() =~= ms.take(k as int));
            assert(ms.take(k + 1).last() == ms[k as int]);
        }
        if occupied & m.to.extract(0) != 0 {
            moves.push(m);
        }
        proof {
            assert(as_fields(captures(occupied, ms.take(k + 1))) =~= moves@);
        }
        k = k + 1;
    }
    proof {
        assert(ms.take(ms.len() as int) =~= ms);
    }
    let ghost caps = moves@;
    k = 0;
    while k < generated.len()
        invariant
            generated@ == as_fields(ms),
            k <= generated@.len(),
            caps == as_fields(captures(occupied, ms)),
            moves@ == caps + as_fields(quiet_moves(occupied, ms.take(k as int))),
        decreases generated@.len() - k,
    {
        let m = generated[k];
        proof {
            reveal(Seq::filter);
            assert(ms.take(k + 1).drop_last() =~= ms.take(k as int));
            assert(ms.take(k + 1).last() == ms[k as int]);
        }
        if occupied & m.to.extract(0) == 0 {
            moves.push(m);
        }
        proof {
            assert(caps + as_fields(quiet_moves(occupied, ms.take(k + 1))) =~= moves@);
        }
        k = k + 1;
    }
    proof {
        assert(ms.take(ms.len() as int) =~= ms);
        assert(moves@ =~= as_fields(captures_first(occupied, ms)));
        lemma_partition_len(occupied, ms);
    }
    moves
}

/// Scores one batch: plays `pm` on `board`, follows each slot's line
/// `below` more plies, and keeps, slot by slot, the first move whose score
/// from the mover's side beats the best so far.
fn best_in_batch(board: &Board, pm: &MoveField, below: i32, turn_white: bool, best: (MoveField, i32))
    -> (r: (MoveField, i32))
    ensures
        ({
            let sc = descend(board.moved_board(pm.from, pm.to), below as int);
            let start = (best.0.from.s0, best.0.to.s0);
            let picked = pick_in_batch((start, best.1 as int), *pm, sc, turn_white, 4);
            best.0 == MoveField::single(start.0, start.1) ==> r.0 == MoveField::single(
                picked.0.0,
                picked.0.1,
            ) && r.1 == picked.1
        }),
{
    let mut next_board = *board;
    next_board.apply_move(pm);
    let scores = vpts_recurse(&next_board, below);
    let ghost sc = descend(next_board, below as int);
    let ghost start = ((best.0.from.s0, best.0.to.s0), best.1 as int);
    proof {
        lemma_descend_bounds(next_board, below as int);
    }
    let (mut best_move, mut best_score) = best;
    let mut i: usize = 0;
    while i < 4
        invariant
            i <= 4,
            forall|t: int| 0 <= t < 4 ==> #[trigger] scores@[t] == sc[t],
            forall|t: int| 0 <= t < 4 ==> -1_000_000 <= #[trigger] sc[t] <= 1_000_000,
            best.0 == MoveField::single(start.0.0, start.0.1) ==> best_move == MoveField::single(
                pick_in_batch(start, *pm, sc, turn_white, i as nat).0.0,
                pick_in_batch(start, *pm, sc, turn_white, i as nat).0.1,
            ),
            best_score == pick_in_batch(start, *pm, sc, turn_white, i as nat).1,
        decreases 4 - i,
    {
        let score = if turn_white { scores[i] } else { -scores[i] };
        if score > best_score {
            best_score = score;
            best_move = MoveField {
                from: Lane::from_single(pm.from.extract(i)),
                to: Lane::from_single(pm.to.extract(i)),
            };
        }
        i = i + 1;
    }
    (best_move, best_score)
}

/// The best move for the side to move in slot 0 (the game; the other slots
/// serve the search), in all four slots, or the empty move when there is
/// none. Slot 0's moves, captures first, are tried four at a time, one per
/// slot; each slot's line is followed `depth - 1` more plies by `descend`,
/// and the first move whose score (from the mover's side) beats all before
/// it is kept.
pub fn search(board: Board, depth: i32) -> (r: MoveField)
    ensures
        r == search_result(board, depth as int),
{
    let generated = generate_moves_for_lane(&board, 0);
    let ghost pos = board.at(0);
    if generated.len() == 0 {
        return MoveField { from: Lane::from_single(0), to: Lane::from_single(0) };
    }
    let occupied = board.occupied().extract(0);
    let moves = order_captures_first(&generated, occupied, Ghost(lane_moves(pos)));
    let ghost om = ordered_moves(pos);

    let packed = pack_move_fields(moves.as_slice());
    let mut best_move = moves[0];
    let mut best_score: i32 = SCORE_FLOOR;
    let turn_white = (board.metadata.extract(0) & (1u64 << META_TURN)) == 0;
    let below = if depth > 0 { depth - 1 } else { 0 };
    proof {
        assert(1u64 << 0u64 == 1) by (bit_vector);
        if depth <= 0 {
            assert forall|b: Board| #[trigger] descend(b, below as int) == descend(b, depth - 1) by {
                lemma_descend_floor(b, below as int, depth - 1);
            }
        }
    }

    let mut j: usize = 0;
    while j < packed.len()
        invariant
            moves@ == as_fields(om),
            om.len() > 0,
            packed@.len() == (om.len() + 3) / 4,
            forall|b: int, t: int|
                0 <= b < packed@.len() && 0 <= t < 4 ==> #[trigger] packed@[b].from.slot(t)
                    == moves@[packed_index(moves@.len() as int, b, t)].from.slot(0),
            forall|b: int, t: int|
                0 <= b < packed@.len() && 0 <= t < 4 ==> #[trigger] packed@[b].to.slot(t)
                    == moves@[packed_index(moves@.len() as int, b, t)].to.slot(0),
            turn_white == board.at(0).white_to_move(),
            om == ordered_moves(board.at(0)),
            j <= packed@.len(),
            forall|b: Board| #[trigger] descend(b, below as int) == descend(b, depth - 1),
            best_move == MoveField::single(
                best_after(board, depth as int, om, j as nat).0.0,
                best_after(board, depth as int, om, j as nat).0.1,
            ),
            best_score == best_after(board, depth as int, om, j as nat).1,
        decreases packed@.len() - j,
    {
        let pm = packed[j];
        proof {
            let bt = batch(om, j as int);
            let n = om.len() as int;
            assert(packed_index(n, j as int, 0) < n);
            assert(packed_index(n, j as int, 1) < n);
            assert(packed_index(n, j as int, 2) < n);
            assert(packed_index(n, j as int, 3) < n);
            assert(pm.from.slot(0) == bt.from.slot(0) && pm.to.slot(0) == bt.to.slot(0));
            assert(pm.from.slot(1) == bt.from.slot(1) && pm.to.slot(1) == bt.to.slot(1));
            assert(pm.from.slot(2) == bt.from.slot(2) && pm.to.slot(2) == bt.to.slot(2));
            assert(pm.from.slot(3) == bt.from.slot(3) && pm.to.slot(3) == bt.to.slot(3));
            assert(pm == bt);
        }
        let r = best_in_batch(&board, &pm, below, turn_white, (best_move, best_score));
        best_move = r.0;
        best_score = r.1;
        j = j + 1;
    }
    best_move
}

proof fn lemma_partition_len(occupied: u64, ms: Seq<(u64, u64)>)
    ensures
        captures(occupied, ms).len() + quiet_moves(occupied, ms).len() == ms.len(),
    decreases ms.len(),
{
    reveal(Seq::filter);
    if ms.len() > 0 {
        lemma_partition_len(occupied, ms.drop_last());
    }
}

} // verus!
