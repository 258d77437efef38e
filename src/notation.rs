//! Square and move names in the text form engine protocols use ("e2e4").
use vstd::prelude::*;
use vstd::std_specs::bits::{u64_trailing_zeros, axiom_u64_trailing_zeros};
use vstd::string::StrSliceExecFns;
use crate::board::Board;
use crate::lane::Lane;
use crate::movegen::{MoveField, as_fields, generate_moves_for_lane, lane_moves};

verus! {

/// The name of square `sq`: its file letter (`a` to `h`, from `sq % 8`) and
/// its rank digit (`1` to `8`, from `sq / 8 + 1`).
pub open spec fn square_name(sq: u32) -> Seq<char> {
    seq![(97 + sq % 8) as char, (49 + sq / 8) as char]
}

/// The text of a move from the single square of `from` to that of `to`, or
/// `0000` when either is empty.
pub open spec fn move_text(from: u64, to: u64) -> Seq<char> {
    if from == 0 || to == 0 {
        seq!['0', '0', '0', '0']
    } else {
        square_name(u64_trailing_zeros(from)) + square_name(u64_trailing_zeros(to))
    }
}

/// The index of the first move of `ms` at or after `i` whose text is
/// `text`, or -1.
pub open spec fn find_text(ms: Seq<(u64, u64)>, text: Seq<char>, i: int) -> int
    decreases ms.len() - i,
{
    if i < 0 || i >= ms.len() {
        -1
    } else if move_text(ms[i].0, ms[i].1) == text {
        i
    } else {
        find_text(ms, text, i + 1)
    }
}

/// The board after playing, in order, each move text of `texts` that names
/// a move of slot 0's side to move (a text that names none is passed over).
/// Each move is played in all four slots.
pub open spec fn after_texts(b: Board, texts: Seq<Seq<char>>) -> Board
    decreases texts.len(),
{
    if texts.len() == 0 {
        b
    } else {
        let prev = after_texts(b, texts.drop_last());
        let ms = lane_moves(prev.at(0));
        let k = find_text(ms, texts.last(), 0);
        if k >= 0 {
            prev.moved_board(Lane::splat(ms[k].0), Lane::splat(ms[k].1))
        } else {
            prev
        }
    }
}

/// The name of square `sq`.
pub fn sq_to_uci(sq: u32) -> (r: Vec<char>)
    requires
        sq < 64,
    ensures
        r@ == square_name(sq),
{
    let file = ((sq % 8) as u8 + 97u8) as char;
    let rank = ((sq / 8) as u8 + 49u8) as char;
    let mut r: Vec<char> = Vec::new();
    r.push(file);
    r.push(rank);
    proof {
        assert(r@ =~= square_name(sq));
    }
    r
}

/// The text of slot 0's move of `m`.
pub fn move_to_uci(m: &MoveField) -> (r: Vec<char>)
    ensures
        r@ == move_text(m.from.slot(0), m.to.slot(0)),
{
    broadcast use axiom_u64_trailing_zeros;

    let f = m.from.extract(0);
    let t = m.to.extract(0);
    if f == 0 || t == 0 {
        let mut r: Vec<char> = Vec::new();
        r.push('0');
        r.push('0');
        r.push('0');
        r.push('0');
        proof {
            assert(r@ =~= seq!['0', '0', '0', '0']);
        }
        return r;
    }
    let mut r = sq_to_uci(f.trailing_zeros());
    let mut to = sq_to_uci(t.trailing_zeros());
    r.append(&mut to);
    r
}

/// Whether the characters of `v` are those of `s`.
fn same_text(v: &Vec<char>, s: &str) -> (r: bool)
    ensures
        r == (v@ == s@),
{
    let n = s.unicode_len();
    if n != v.len() {
        return false;
    }
    let mut i: usize = 0;
    while i < n
        invariant
            n == s@.len(),
            n == v@.len(),
            i <= n,
            forall|j: int| 0 <= j < i ==> v@[j] == s@[j],
        decreases n - i,
    {
        if v[i] != s.get_char(i) {
            return false;
        }
        i = i + 1;
    }
    proof {
        assert(v@ =~= s@);
    }
    true
}

/// Plays, in order and in all four slots, each move text of `moves` that
/// names a move of slot 0's side to move; a text that names none is passed
/// over.
pub fn apply_uci_moves(board: &mut Board, moves: &[&str])
    ensures
        *final(board) == after_texts(*old(board), moves@.map_values(|s: &str| s@)),
{
    let ghost texts = moves@.map_values(|s: &str| s@);
    let mut i: usize = 0;
    while i < moves.len()
        invariant
            i <= moves@.len(),
            texts == moves@.map_values(|s: &str| s@),
            *board == after_texts(*old(board), texts.take(i as int)),
        decreases moves@.len() - i,
    {
        let m_str = moves[i];
        let legal = generate_moves_for_lane(board, 0);
        let ghost prev = *board;
        let ghost ms = lane_moves(prev.at(0));
        let mut k: usize = 0;
        let mut found = false;
        while k < legal.len() && !found
            invariant
                legal@ == as_fields(ms),
                ms == lane_moves(prev.at(0)),
                k <= legal@.len(),
                found ==> k < legal@.len(),
                !found ==> *board == prev && find_text(ms, m_str@, 0) == find_text(ms, m_str@, k as int),
                found ==> {
                    let j = find_text(ms, m_str@, 0);
                    &&& 0 <= j < ms.len()
                    &&& *board == prev.moved_board(Lane::splat(ms[j].0), Lane::splat(ms[j].1))
                },
            decreases legal@.len() - k + if found { 0int } else { 1int },
        {
            let m = legal[k];
            let text = move_to_uci(&m);
            if same_text(&text, m_str) {
                proof {
                    assert(m == MoveField::single(ms[k as int].0, ms[k as int].1));
                    assert(find_text(ms, m_str@, k as int) == k);
                }
                board.apply_move(&m);
                found = true;
            } else {
                k = k + 1;
            }
        }
        proof {
            if !found {
                assert(find_text(ms, m_str@, legal@.len() as int) == -1);
            }
            let t = texts.take(i + 1);
            assert(t.drop_last() =~= texts.take(i as int));
            assert(t.last() == m_str@);
        }
        i = i + 1;
    }
    proof {
        assert(texts.take(moves@.len() as int) =~= texts);
    }
}

} // verus!
