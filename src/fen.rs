//! Building a board from a FEN record: the piece placement field and the side
//! to move; any further fields are ignored.
use vstd::prelude::*;
use vstd::string::StrSliceExecFns;
use crate::board::{Board, Planes};
use crate::lane::Lane;

verus! {

/// The characters `char::is_whitespace` accepts (Unicode White_Space).
pub open spec fn is_space(c: char) -> bool {
    let v = c as u32;
    (9 <= v <= 13) || v == 32 || v == 0x85 || v == 0xa0 || v == 0x1680 || (0x2000 <= v <= 0x200a)
        || v == 0x2028 || v == 0x2029 || v == 0x202f || v == 0x205f || v == 0x3000
}

/// The first index at or after `i` that is not whitespace (or the end).
pub open spec fn skip_spaces(s: Seq<char>, i: int) -> int
    decreases s.len() - i,
{
    if 0 <= i < s.len() && is_space(s[i]) {
        skip_spaces(s, i + 1)
    } else {
        i
    }
}

/// The first index at or after `i` that is whitespace (or the end).
pub open spec fn word_end(s: Seq<char>, i: int) -> int
    decreases s.len() - i,
{
    if 0 <= i < s.len() && !is_space(s[i]) {
        word_end(s, i + 1)
    } else {
        i
    }
}

pub open spec fn is_digit(c: char) -> bool {
    '0' <= c <= '9'
}

pub open spec fn is_white_letter(c: char) -> bool {
    c == 'P' || c == 'N' || c == 'B' || c == 'R' || c == 'Q' || c == 'K'
}

pub open spec fn is_black_letter(c: char) -> bool {
    c == 'p' || c == 'n' || c == 'b' || c == 'r' || c == 'q' || c == 'k'
}

/// The position with the piece named by letter `c` put on the square `bit`,
/// replacing whatever stood there; a character that names no piece changes
/// nothing.
pub open spec fn place(p: Planes, c: char, bit: u64) -> Planes {
    if is_white_letter(c) || is_black_letter(c) {
        let pawn = c == 'P' || c == 'p';
        let leaper = c == 'N' || c == 'n';
        let king = c == 'K' || c == 'k';
        let diagonal = c == 'B' || c == 'b' || c == 'Q' || c == 'q';
        let orthogonal = c == 'R' || c == 'r' || c == 'Q' || c == 'q';
        Planes {
            pawns: set_if(p.pawns & !bit, bit, pawn),
            leapers: set_if(p.leapers & !bit, bit, leaper),
            sliders: set_if(p.sliders & !bit, bit, diagonal || orthogonal),
            kings: set_if(p.kings & !bit, bit, king),
            white: set_if(p.white & !bit, bit, is_white_letter(c)),
            black: set_if(p.black & !bit, bit, is_black_letter(c)),
            diagonal: set_if(p.diagonal & !bit, bit, diagonal),
            orthogonal: set_if(p.orthogonal & !bit, bit, orthogonal),
            metadata: p.metadata,
        }
    } else {
        p
    }
}

pub open spec fn set_if(plane: u64, bit: u64, yes: bool) -> u64 {
    if yes {
        plane | bit
    } else {
        plane
    }
}

/// Where the placement scan stands: the row (0 = rank 8), the file, and the
/// pieces placed so far. Row and file stop counting at 8, past the board.
pub struct PlacementScan {
    pub row: u64,
    pub file: u64,
    pub planes: Planes,
}

pub open spec fn no_pieces() -> Planes {
    Planes {
        pawns: 0,
        leapers: 0,
        sliders: 0,
        kings: 0,
        white: 0,
        black: 0,
        diagonal: 0,
        orthogonal: 0,
        metadata: 0,
    }
}

pub open spec fn capped(x: int) -> u64 {
    if x < 8 {
        x as u64
    } else {
        8
    }
}

/// One character of the placement field: `/` starts the next row, a digit
/// skips that many files, any other character takes one file and, where it
/// names a piece on a square of the board, puts that piece there.
pub open spec fn scan_step(st: PlacementScan, c: char) -> PlacementScan {
    if c == '/' {
        PlacementScan { row: capped(st.row + 1), file: 0, planes: st.planes }
    } else if is_digit(c) {
        PlacementScan { file: capped(st.file + (c as u32 - '0' as u32)), ..st }
    } else {
        let planes = if st.row < 8 && st.file < 8 {
            place(st.planes, c, 1u64 << ((7 - st.row) * 8 + st.file) as u64)
        } else {
            st.planes
        };
        PlacementScan { row: st.row, file: capped(st.file + 1), planes }
    }
}

/// The placement scan over every character of `cs`.
pub open spec fn scan(cs: Seq<char>) -> PlacementScan
    decreases cs.len(),
{
    if cs.len() == 0 {
        PlacementScan { row: 0, file: 0, planes: no_pieces() }
    } else {
        scan_step(scan(cs.drop_last()), cs.last())
    }
}

/// The position a FEN record describes: the pieces of its first field, and
/// black to move exactly when its second field is `b`.
pub open spec fn fen_position(s: Seq<char>) -> Planes {
    let w0 = skip_spaces(s, 0);
    let w1 = word_end(s, w0);
    let t0 = skip_spaces(s, w1);
    let t1 = word_end(s, t0);
    let pieces = scan(s.subrange(w0, w1)).planes;
    Planes { metadata: if s.subrange(t0, t1) == seq!['b'] { 1 } else { 0 }, ..pieces }
}

proof fn lemma_place_keeps_occupancy(p: Planes, c: char, bit: u64)
    requires
        p.occupancy_ok(),
    ensures
        place(p, c, bit).occupancy_ok(),
{
    if is_white_letter(c) || is_black_letter(c) {
        let fp = c == 'P' || c == 'p';
        let fl = c == 'N' || c == 'n';
        let fk = c == 'K' || c == 'k';
        let fd = c == 'B' || c == 'b' || c == 'Q' || c == 'q';
        let fo = c == 'R' || c == 'r' || c == 'Q' || c == 'q';
        let fs = fd || fo;
        let fw = is_white_letter(c);
        let fb = is_black_letter(c);
        let (pa, le, sl, ki, wh, bl) = (p.pawns, p.leapers, p.sliders, p.kings, p.white, p.black);
        assert({
            &&& set_if(pa & !bit, bit, fp) & set_if(le & !bit, bit, fl) == 0
            &&& set_if(pa & !bit, bit, fp) & set_if(sl & !bit, bit, fs) == 0
            &&& set_if(pa & !bit, bit, fp) & set_if(ki & !bit, bit, fk) == 0
            &&& set_if(le & !bit, bit, fl) & set_if(sl & !bit, bit, fs) == 0
            &&& set_if(le & !bit, bit, fl) & set_if(ki & !bit, bit, fk) == 0
            &&& set_if(sl & !bit, bit, fs) & set_if(ki & !bit, bit, fk) == 0
            &&& set_if(wh & !bit, bit, fw) & set_if(bl & !bit, bit, fb) == 0
            &&& set_if(pa & !bit, bit, fp) | set_if(le & !bit, bit, fl) | set_if(sl & !bit, bit, fs)
                | set_if(ki & !bit, bit, fk) == set_if(wh & !bit, bit, fw) | set_if(
                bl & !bit,
                bit,
                fb,
            )
        }) by (bit_vector)
            requires
                pa & le == 0,
                pa & sl == 0,
                pa & ki == 0,
                le & sl == 0,
                le & ki == 0,
                sl & ki == 0,
                wh & bl == 0,
                pa | le | sl | ki == wh | bl,
                (fp && !fl && !fs && !fk) || (!fp && fl && !fs && !fk) || (!fp && !fl && fs && !fk)
                    || (!fp && !fl && !fs && fk),
                (fw && !fb) || (!fw && fb),
        ;
    }
}

fn is_space_char(c: char) -> (r: bool)
    ensures
        r == is_space(c),
{
    let v = c as u32;
    (9 <= v && v <= 13) || v == 32 || v == 0x85 || v == 0xa0 || v == 0x1680 || (0x2000 <= v && v
        <= 0x200a) || v == 0x2028 || v == 0x2029 || v == 0x202f || v == 0x205f || v == 0x3000
}

fn set_bit_if(plane: u64, bit: u64, yes: bool) -> (r: u64)
    ensures
        r == set_if(plane & !bit, bit, yes),
{
    if yes {
        (plane & !bit) | bit
    } else {
        plane & !bit
    }
}

/// Puts the piece named by `c` on the square `bit`.
fn place_piece(p: &mut Planes, c: char, bit: u64)
    ensures
        *final(p) == place(*old(p), c, bit),
{
    let white = c == 'P' || c == 'N' || c == 'B' || c == 'R' || c == 'Q' || c == 'K';
    let black = c == 'p' || c == 'n' || c == 'b' || c == 'r' || c == 'q' || c == 'k';
    if white || black {
        let diagonal = c == 'B' || c == 'b' || c == 'Q' || c == 'q';
        let orthogonal = c == 'R' || c == 'r' || c == 'Q' || c == 'q';
        p.pawns = set_bit_if(p.pawns, bit, c == 'P' || c == 'p');
        p.leapers = set_bit_if(p.leapers, bit, c == 'N' || c == 'n');
        p.sliders = set_bit_if(p.sliders, bit, diagonal || orthogonal);
        p.kings = set_bit_if(p.kings, bit, c == 'K' || c == 'k');
        p.white = set_bit_if(p.white, bit, white);
        p.black = set_bit_if(p.black, bit, black);
        p.diagonal = set_bit_if(p.diagonal, bit, diagonal);
        p.orthogonal = set_bit_if(p.orthogonal, bit, orthogonal);
    }
}

/// The first index at or after `i` that is not whitespace.
fn skip_spaces_from(s: &str, n: usize, i: usize) -> (r: usize)
    requires
        n == s@.len(),
        i <= n,
    ensures
        r == skip_spaces(s@, i as int),
        i <= r <= n,
{
    let mut j = i;
    while j < n && is_space_char(s.get_char(j))
        invariant
            n == s@.len(),
            i <= j <= n,
            skip_spaces(s@, j as int) == skip_spaces(s@, i as int),
        decreases n - j,
    {
        j = j + 1;
    }
    j
}

/// The first index at or after `i` that is whitespace.
fn word_end_from(s: &str, n: usize, i: usize) -> (r: usize)
    requires
        n == s@.len(),
        i <= n,
    ensures
        r == word_end(s@, i as int),
        i <= r <= n,
{
    let mut j = i;
    while j < n && !is_space_char(s.get_char(j))
        invariant
            n == s@.len(),
            i <= j <= n,
            word_end(s@, j as int) == word_end(s@, i as int),
        decreases n - j,
    {
        j = j + 1;
    }
    j
}

impl Board {
    /// The position of a FEN record in all four slots. Characters that name
    /// no piece are skipped (each takes one file), pieces that would stand
    /// off the board are left out, and fields after the side to move are
    /// ignored.
    pub fn from_fen(fen: &str) -> (r: Board)
        ensures
            r == Board::uniform(fen_position(fen@)),
            r.wf(),
    {
        let n = fen.unicode_len();
        let w0 = skip_spaces_from(fen, n, 0);
        let w1 = word_end_from(fen, n, w0);

        let mut row: u64 = 0;
        let mut file: u64 = 0;
        let mut pl = Planes {
            pawns: 0,
            leapers: 0,
            sliders: 0,
            kings: 0,
            white: 0,
            black: 0,
            diagonal: 0,
            orthogonal: 0,
            metadata: 0,
        };
        proof {
            assert(fen@.subrange(w0 as int, w0 as int) =~= Seq::<char>::empty());
            assert(0u64 & 0u64 == 0 && 0u64 | 0u64 == 0) by (bit_vector);
        }
        let mut j = w0;
        while j < w1
            invariant
                n == fen@.len(),
                w0 <= j <= w1 <= n,
                scan(fen@.subrange(w0 as int, j as int)) == (PlacementScan {
                    row,
                    file,
                    planes: pl,
                }),
                row <= 8,
                file <= 8,
                pl.occupancy_ok(),
                pl.metadata == 0,
            decreases w1 - j,
        {
            let c = fen.get_char(j);
            proof {
                let cs = fen@.subrange(w0 as int, j + 1);
                assert(cs.drop_last() =~= fen@.subrange(w0 as int, j as int));
                assert(cs.last() == c);
            }
            if c == '/' {
                row = if row < 8 { row + 1 } else { 8 };
                file = 0;
            } else if '0' <= c && c <= '9' {
                let d = (c as u32 - '0' as u32) as u64;
                file = if file + d < 8 { file + d } else { 8 };
            } else {
                if row < 8 && file < 8 {
                    let bit = 1u64 << ((7 - row) * 8 + file);
                    proof {
                        lemma_place_keeps_occupancy(pl, c, bit);
                    }
                    place_piece(&mut pl, c, bit);
                }
                file = if file < 8 { file + 1 } else { 8 };
            }
            j = j + 1;
        }

        let t0 = skip_spaces_from(fen, n, w1);
        let t1 = word_end_from(fen, n, t0);
        let black_to_move = t1 - t0 == 1 && fen.get_char(t0) == 'b';
        proof {
            if t1 - t0 == 1 {
                assert(fen@.subrange(t0 as int, t1 as int) =~= seq![fen@[t0 as int]]);
            }
            if black_to_move {
                assert(fen@.subrange(t0 as int, t1 as int) =~= seq!['b']);
            } else if fen@.subrange(t0 as int, t1 as int) == seq!['b'] {
                assert(fen@.subrange(t0 as int, t1 as int).len() == 1);
                assert(fen@.subrange(t0 as int, t1 as int)[0] == 'b');
            }
        }
        let meta: u64 = if black_to_move { 1u64 << crate::board::META_TURN } else { 0 };
        proof {
            assert(1u64 << 0u64 == 1) by (bit_vector);
        }
        Board {
            pawns: Lane::from_single(pl.pawns),
            leapers: Lane::from_single(pl.leapers),
            sliders: Lane::from_single(pl.sliders),
            kings: Lane::from_single(pl.kings),
            white: Lane::from_single(pl.white),
            black: Lane::from_single(pl.black),
            diagonal: Lane::from_single(pl.diagonal),
            orthogonal: Lane::from_single(pl.orthogonal),
            metadata: Lane::from_single(meta),
        }
    }
}

} // verus!
