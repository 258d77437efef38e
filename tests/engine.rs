use vesper::board::Board;
use vesper::eval::evaluate;
use vesper::lane::Lane;
use vesper::movegen::{self, MoveField};
use vesper::search;

const START: &str = "rnbqkbnr/pppppppp/8/8/8/8/PPPPPPPP/RNBQKBNR w KQkq - 0 1";

fn mv(from: u64, to: u64) -> MoveField {
    MoveField { from: Lane::from_single(from), to: Lane::from_single(to) }
}

#[test]
fn test_starting_position_moves() {
    let board = Board::from_fen("rnbqkbnr/pppppppp/8/8/8/8/PPPPPPPP/RNBQKBNR w KQkq - 0 1");
    let moves = movegen::generate_moves_for_lane(&board, 0);
    assert!(!moves.is_empty());
}

#[test]
fn test_search() {
    let board = Board::from_fen("rnbqkbnr/pppppppp/8/8/8/8/PPPPPPPP/RNBQKBNR w KQkq - 0 1");
    let best_move = search::search(board, 2);
    assert!(best_move.from.extract(0) != 0);
    assert!(best_move.to.extract(0) != 0);
}

#[test]
fn start_position_has_twenty_moves_in_order() {
    let board = Board::from_fen(START);
    let moves = movegen::generate_moves_for_lane(&board, 0);
    assert_eq!(moves.len(), 20);
    let pawn_moves: Vec<&MoveField> =
        moves.iter().filter(|m| m.from.extract(0) & 0xff00 != 0).collect();
    assert_eq!(pawn_moves.len(), 16);
    let singles = pawn_moves.iter().filter(|m| m.to.extract(0) == m.from.extract(0) << 8).count();
    let doubles = pawn_moves.iter().filter(|m| m.to.extract(0) == m.from.extract(0) << 16).count();
    assert_eq!(singles, 8);
    assert_eq!(doubles, 8);
    // Pawns first, by origin, then destination: a2-a3, a2-a4, b2-b3, ...
    assert_eq!(moves[0].from.extract(0), 1 << 8);
    assert_eq!(moves[0].to.extract(0), 1 << 16);
    assert_eq!(moves[1].to.extract(0), 1 << 24);
    // Then the knights: b1-a3, b1-c3, g1-f3, g1-h3.
    let knights: Vec<(u64, u64)> =
        moves[16..].iter().map(|m| (m.from.extract(0), m.to.extract(0))).collect();
    assert_eq!(knights, vec![(1 << 1, 1 << 16), (1 << 1, 1 << 18), (1 << 6, 1 << 21), (1 << 6, 1 << 23)]);
    // Every move is the same in all four slots.
    for m in &moves {
        for i in 1..4 {
            assert_eq!(m.from.extract(i), m.from.extract(0));
            assert_eq!(m.to.extract(i), m.to.extract(0));
        }
    }
}

#[test]
fn black_moves_in_start_position() {
    let board = Board::from_fen("rnbqkbnr/pppppppp/8/8/8/8/PPPPPPPP/RNBQKBNR b KQkq - 0 1");
    let moves = movegen::generate_moves_for_lane(&board, 2);
    assert_eq!(moves.len(), 20);
    // a7 pawn first: a7-a5 (32) before a7-a6 (40).
    assert_eq!(moves[0].from.extract(0), 1 << 48);
    assert_eq!(moves[0].to.extract(0), 1 << 32);
    assert_eq!(moves[1].to.extract(0), 1 << 40);
}

#[test]
fn e2e4_moves_pawn_and_flips_turn() {
    let mut board = Board::from_fen(START);
    board.apply_move(&mv(1 << 12, 1 << 28));
    for i in 0..4 {
        assert_eq!(board.pawns.extract(i) & (1 << 12), 0);
        assert_eq!(board.white.extract(i) & (1 << 12), 0);
        assert_ne!(board.pawns.extract(i) & (1 << 28), 0);
        assert_ne!(board.white.extract(i) & (1 << 28), 0);
        assert_eq!(board.black.extract(i) & (1 << 28), 0);
        assert_eq!(board.metadata.extract(i) & 1, 1);
    }
}

#[test]
fn idle_slot_only_flips_turn() {
    let start = Board::from_fen(START);
    let mut board = start;
    let batch = MoveField {
        from: Lane::new(1 << 12, 0, 1 << 6, 0),
        to: Lane::new(1 << 28, 0, 1 << 21, 0),
    };
    board.apply_move(&batch);
    for i in [1usize, 3] {
        assert_eq!(board.pawns.extract(i), start.pawns.extract(i));
        assert_eq!(board.leapers.extract(i), start.leapers.extract(i));
        assert_eq!(board.sliders.extract(i), start.sliders.extract(i));
        assert_eq!(board.kings.extract(i), start.kings.extract(i));
        assert_eq!(board.white.extract(i), start.white.extract(i));
        assert_eq!(board.black.extract(i), start.black.extract(i));
        assert_eq!(board.diagonal.extract(i), start.diagonal.extract(i));
        assert_eq!(board.orthogonal.extract(i), start.orthogonal.extract(i));
        assert_eq!(board.metadata.extract(i), start.metadata.extract(i) ^ 1);
    }
    // Slot 2 moved its knight g1-f3.
    assert_eq!(board.leapers.extract(2) & (1 << 6), 0);
    assert_ne!(board.leapers.extract(2) & (1 << 21), 0);
}

#[test]
fn capture_evicts_the_captured_piece() {
    // White knight on e4 takes the black pawn on d6.
    let mut board = Board::from_fen("4k3/8/3p4/8/4N3/8/8/4K3 w - - 0 1");
    board.apply_move(&mv(1 << 28, 1 << 43));
    assert_eq!(board.pawns.extract(0), 0);
    assert_eq!(board.black.extract(0), 1 << 60);
    assert_eq!(board.leapers.extract(0), 1 << 43);
    assert_eq!(board.white.extract(0), (1 << 43) | (1 << 4));
}

#[test]
fn occupancy_invariant_holds_along_moves() {
    let mut board = Board::from_fen(START);
    for _ in 0..6 {
        let moves = movegen::generate_moves_for_lane(&board, 0);
        board.apply_move(&moves[moves.len() - 1]);
        for i in 0..4 {
            let (p, l, s, k) = (
                board.pawns.extract(i),
                board.leapers.extract(i),
                board.sliders.extract(i),
                board.kings.extract(i),
            );
            let (w, b) = (board.white.extract(i), board.black.extract(i));
            assert_eq!(p & l | p & s | p & k | l & s | l & k | s & k, 0);
            assert_eq!(w & b, 0);
            assert_eq!(p | l | s | k, w | b);
        }
    }
}

#[test]
fn east_and_west_shifts_do_not_wrap() {
    assert_eq!(Lane::from_single(1 << 7).shift_east().extract(0), 0);
    assert_eq!(Lane::from_single(1 << 15).shift_north_east().extract(0), 0);
    assert_eq!(Lane::from_single(1 << 15).shift_south_east().extract(0), 0);
    assert_eq!(Lane::from_single(1 << 8).shift_west().extract(0), 0);
    assert_eq!(Lane::from_single(1 << 8).shift_north_west().extract(0), 0);
    assert_eq!(Lane::from_single(1 << 8).shift_south_west().extract(0), 0);
    assert_eq!(Lane::from_single(1 << 8).shift_east().extract(0), 1 << 9);
    assert_eq!(Lane::from_single(1 << 9).shift_west().extract(0), 1 << 8);
    assert_eq!(Lane::from_single(1 << 63).shift_north().extract(0), 0);
    assert_eq!(Lane::from_single(1).shift_south().extract(0), 0);
}

#[test]
fn flood_on_open_board_reaches_the_edge() {
    let all = Lane::from_single(u64::MAX);
    let a1 = Lane::from_single(1);
    assert_eq!(a1.fill_east(all).extract(0), 0xff);
    assert_eq!(a1.fill_north(all).extract(0), 0x0101_0101_0101_0101);
    assert_eq!(a1.fill_north_east(all).extract(0), 0x8040_2010_0804_0201);
    assert_eq!(a1.fill_west(all).extract(0), 1);
    assert_eq!(a1.fill_south(all).extract(0), 1);
    let h1 = Lane::from_single(1 << 7);
    assert_eq!(h1.fill_north_west(all).extract(0), 0x0102_0408_1020_4080);
    assert_eq!(h1.fill_east(all).extract(0), 1 << 7);
    let d4 = Lane::from_single(1 << 27);
    assert_eq!(d4.fill_south_west(all).extract(0), (1 << 27) | (1 << 18) | (1 << 9) | 1);
    assert_eq!(d4.fill_south_east(all).extract(0), (1 << 27) | (1 << 20) | (1 << 13) | (1 << 6));
    assert_eq!(d4.fill_west(all).extract(0), 0x0f00_0000);
}

#[test]
fn flood_stops_before_a_blocker() {
    // From a1 east, with c1 occupied: a1, b1 only.
    let empty = Lane::from_single(!(1u64 << 2));
    assert_eq!(Lane::from_single(1).fill_east(empty).extract(0), 0b11);
    // Each slot floods on its own.
    let g = Lane::new(1, 1, 1 << 7, 0);
    let e = Lane::new(u64::MAX, !(1u64 << 1), u64::MAX, u64::MAX);
    let r = g.fill_east(e);
    assert_eq!((r.extract(0), r.extract(1), r.extract(2), r.extract(3)), (0xff, 1, 1 << 7, 0));
}

#[test]
fn leaper_patterns() {
    let b1 = Lane::from_single(1 << 1);
    assert_eq!(b1.knight_attacks().extract(0), (1 << 11) | (1 << 16) | (1 << 18));
    let a1 = Lane::from_single(1);
    assert_eq!(a1.king_attacks().extract(0), (1 << 1) | (1 << 8) | (1 << 9));
    let h8 = Lane::from_single(1 << 63);
    assert_eq!(h8.knight_attacks().extract(0), (1 << 46) | (1 << 53));
}

#[test]
fn zero_masks_and_lane_ops() {
    let l = Lane::new(0, 5, 0, u64::MAX);
    let z = l.is_zero_mask();
    assert_eq!((z.extract(0), z.extract(1), z.extract(2), z.extract(3)), (u64::MAX, 0, u64::MAX, 0));
    let nz = l.is_not_zero_mask();
    assert_eq!((nz.extract(0), nz.extract(1), nz.extract(2), nz.extract(3)), (0, u64::MAX, 0, u64::MAX));
    let e = l.eq(Lane::new(0, 4, 1, u64::MAX));
    assert_eq!((e.extract(0), e.extract(1), e.extract(2), e.extract(3)), (u64::MAX, 0, 0, u64::MAX));
    let x = Lane::new(1, 2, 3, 4).bitxor(Lane::from_single(1));
    assert_eq!((x.extract(0), x.extract(1), x.extract(2), x.extract(3)), (0, 3, 2, 5));
}

#[test]
fn fen_side_to_move_and_unknown_characters() {
    let black = Board::from_fen("8/8/8/8/8/8/8/K7 b - - 0 1");
    assert_eq!(black.metadata.extract(3), 1);
    let white = Board::from_fen("8/8/8/8/8/8/8/K7 w - - 0 1");
    assert_eq!(white.metadata.extract(0), 0);
    let no_turn = Board::from_fen("8/8/8/8/8/8/8/K7");
    assert_eq!(no_turn.metadata.extract(0), 0);
    // 'x' names no piece but takes a file: the king lands on b1.
    let odd = Board::from_fen("8/8/8/8/8/8/8/xK6 w");
    assert_eq!(odd.kings.extract(1), 1 << 1);
    assert_eq!(odd.occupied().extract(2), 1 << 1);
    let empty = Board::from_fen("");
    assert_eq!(empty.occupied().extract(0), 0);
}

#[test]
fn fen_start_position_planes() {
    let b = Board::from_fen(START);
    for i in 0..4 {
        assert_eq!(b.pawns.extract(i), 0x00ff_0000_0000_ff00);
        assert_eq!(b.leapers.extract(i), 0x4200_0000_0000_0042);
        assert_eq!(b.sliders.extract(i), 0xad00_0000_0000_00ad);
        assert_eq!(b.kings.extract(i), 0x1000_0000_0000_0010);
        assert_eq!(b.white.extract(i), 0xffff);
        assert_eq!(b.black.extract(i), 0xffff_0000_0000_0000);
        assert_eq!(b.diagonal.extract(i), 0x2c00_0000_0000_002c);
        assert_eq!(b.orthogonal.extract(i), 0x8900_0000_0000_0089);
        assert_eq!(b.metadata.extract(i), 0);
    }
}

#[test]
fn evaluate_start_and_lone_kings() {
    let start = Board::from_fen(START);
    assert_eq!(evaluate(&start), [10, 10, 10, 10]);
    let black = Board::from_fen("rnbqkbnr/pppppppp/8/8/8/8/PPPPPPPP/RNBQKBNR b KQkq - 0 1");
    assert_eq!(evaluate(&black), [-10, -10, -10, -10]);
    // White king a1 (3 squares), black king h8 (3 squares), white pawn a2
    // (attacks b3): material 100, mobility (4 - 3) * 5, white to move.
    let b = Board::from_fen("7k/8/8/8/8/8/P7/K7 w - - 0 1");
    assert_eq!(evaluate(&b)[0], 100 + 5 + 10);
}

#[test]
fn pack_short_batch_of_one_move() {
    let moves: Vec<MoveField> = (0..5).map(|k| mv(1 << k, 1 << (k + 8))).collect();
    let packed = movegen::pack_move_fields(&moves);
    assert_eq!(packed.len(), 2);
    for i in 0..4 {
        assert_eq!(packed[0].from.extract(i), 1 << i);
        assert_eq!(packed[0].to.extract(i), 1 << (i + 8));
        assert_eq!(packed[1].from.extract(i), 1 << 4);
        assert_eq!(packed[1].to.extract(i), 1 << 12);
    }
    assert!(movegen::pack_move_fields(&[]).is_empty());
}

#[test]
fn pack_pads_short_batch_with_last_move() {
    let moves: Vec<MoveField> = (0..7).map(|k| mv(1 << k, 1 << (k + 8))).collect();
    let packed = movegen::pack_move_fields(&moves);
    assert_eq!(packed.len(), 2);
    let froms: Vec<u64> = (0..4).map(|i| packed[1].from.extract(i)).collect();
    let tos: Vec<u64> = (0..4).map(|i| packed[1].to.extract(i)).collect();
    assert_eq!(froms, vec![1 << 4, 1 << 5, 1 << 6, 1 << 6]);
    assert_eq!(tos, vec![1 << 12, 1 << 13, 1 << 14, 1 << 14]);
    let two: Vec<MoveField> = (0..2).map(|k| mv(1 << k, 1 << (k + 8))).collect();
    let packed_two = movegen::pack_move_fields(&two);
    assert_eq!(packed_two.len(), 1);
    let froms2: Vec<u64> = (0..4).map(|i| packed_two[0].from.extract(i)).collect();
    assert_eq!(froms2, vec![1, 2, 2, 2]);
}

#[test]
fn search_is_deterministic() {
    let board = Board::from_fen(START);
    let a = search::search(board, 3);
    let b = search::search(board, 3);
    assert_eq!(a.from.extract(0), b.from.extract(0));
    assert_eq!(a.to.extract(0), b.to.extract(0));
}

#[test]
fn search_at_depth_zero_takes_best_static_score() {
    let board = Board::from_fen(START);
    let moves = movegen::generate_moves_for_lane(&board, 0);
    let mut best = (0u64, 0u64);
    let mut best_score = i32::MIN;
    for m in &moves {
        let mut next = board;
        next.apply_move(m);
        let s = evaluate(&next)[0];
        if s > best_score {
            best_score = s;
            best = (m.from.extract(0), m.to.extract(0));
        }
    }
    let r = search::search(board, 0);
    assert_eq!((r.from.extract(0), r.to.extract(0)), best);
}

#[test]
fn search_prefers_a_free_queen() {
    // The white rook on a1 can take an undefended queen on a8.
    let board = Board::from_fen("q6k/8/8/8/8/8/8/R6K w - - 0 1");
    let r = search::search(board, 1);
    assert_eq!(r.from.extract(0), 1);
    assert_eq!(r.to.extract(0), 1 << 56);
}

#[test]
fn search_without_moves_returns_empty_move() {
    let board = Board::from_fen("8/8/8/8/8/8/8/8 w - - 0 1");
    let r = search::search(board, 2);
    assert_eq!(r.from.extract(0), 0);
    assert_eq!(r.to.extract(0), 0);
}

#[test]
fn square_and_move_names() {
    let name: String = vesper::notation::sq_to_uci(12).into_iter().collect();
    assert_eq!(name, "e2");
    let corner: String = vesper::notation::sq_to_uci(63).into_iter().collect();
    assert_eq!(corner, "h8");
    let text: String = vesper::notation::move_to_uci(&mv(1 << 12, 1 << 28)).into_iter().collect();
    assert_eq!(text, "e2e4");
    let none: String = vesper::notation::move_to_uci(&mv(0, 0)).into_iter().collect();
    assert_eq!(none, "0000");
}

#[test]
fn replaying_move_texts() {
    let mut board = Board::from_fen(START);
    vesper::notation::apply_uci_moves(&mut board, &["e2e4", "zzzz", "e7e5", "g1f3"]);
    assert_ne!(board.pawns.extract(0) & (1 << 28), 0);
    assert_ne!(board.pawns.extract(1) & (1 << 36), 0);
    assert_ne!(board.leapers.extract(3) & (1 << 21), 0);
    assert_eq!(board.leapers.extract(0) & (1 << 6), 0);
    // Three moves played: black to move.
    assert_eq!(board.metadata.extract(0) & 1, 1);
}

#[test]
fn flood_from_occupied_generator_and_ray_alone() {
    // The generator's own square is occupied; every other square is empty.
    let d4 = 1u64 << 27;
    let g = Lane::from_single(d4);
    let empty = Lane::from_single(!d4);
    assert_eq!(g.fill_north(empty).extract(1), 0x0808_0808_0800_0000);
    assert_eq!(g.fill_north(empty).shift_north().extract(2), 0x0808_0808_0000_0000);
    assert_eq!(g.fill_east(empty).extract(0), 0xf800_0000);
    assert_eq!(g.fill_east(empty).shift_east().extract(3), 0xf000_0000);
    assert_eq!(g.fill_north_west(empty).shift_north_west().extract(0), (1 << 34) | (1 << 41) | (1 << 48));
    let h1 = Lane::from_single(1 << 7);
    assert_eq!(h1.fill_east(Lane::from_single(!(1u64 << 7))).shift_east().extract(0), 0);
}
