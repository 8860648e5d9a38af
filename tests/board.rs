use today_puzzle::bitboard::BitBoard;
use today_puzzle::bitpiece::BitPiece;
use today_puzzle::board::{Board, Solution};
use today_puzzle::piece::{piece_l, piece_line, piece_square, piece_tall_l, Piece, Variations};

#[test]
fn new_board_blocks_base_and_solved_cells() {
    let b: Board<2> = Board::new(BitBoard::new(0xF0), BitBoard::new(!0x3));
    assert_eq!(b.combined, BitBoard(0xF3));
    assert_eq!(b.pieces(), &[BitBoard(0), BitBoard(0)]);
    assert!(!b.is_solved());
}

#[test]
fn place_piece_fits_or_fails() {
    let b: Board<2> = Board::new(BitBoard::new(0xF0), BitBoard::new(u64::MAX));
    let placed = b.place_piece(BitPiece::new(0x3), 0, 0).expect("fits");
    assert_eq!(placed.combined, BitBoard(0xF3));
    assert_eq!(placed.pieces()[0], BitBoard(0x3));
    assert_eq!(placed.piece_count, 1);
    assert!(placed.place_piece(BitPiece::new(0x3), 1, 0).is_err());
    assert!(b.place_piece(BitPiece::new(0x3), 4, 0).is_err());
}

#[test]
fn valid_placements_in_order() {
    // Everything but the bottom-right 2x2 corner of the board is occupied.
    let free = (1u64 << 0) | (1u64 << 1) | (1u64 << 8) | (1u64 << 9);
    let b: Board<1> = Board::new(BitBoard::new(!free), BitBoard::new(u64::MAX));
    let mut buf = Vec::new();
    b.append_valid_placements(&piece_square().as_ref(), &mut buf);
    assert_eq!(buf.len(), 1);
    assert_eq!(buf[0].pieces()[0], BitBoard(free));
    assert!(buf[0].is_solved());

    // A 1x2 domino fits the corner in four ways: two flat, two upright.
    let domino = Piece {
        variations: vec![BitPiece::new(0x3), BitPiece::new(0x101)],
    };
    let mut buf = Vec::new();
    b.append_valid_placements(&domino, &mut buf);
    let cells: Vec<u64> = buf.iter().map(|c| c.pieces()[0].0).collect();
    assert_eq!(cells, vec![0x3, 0x300, 0x101, 0x202]);
}

#[test]
fn solve_finds_all_tilings() {
    // A 2x4 region can be tiled by two 1x4 lines in two ways.
    let free = 0x0F0Fu64;
    let b: Board<2> = Board::new(BitBoard::new(!free), BitBoard::new(u64::MAX));
    let line = piece_line().as_ref();
    let pieces = [line.clone(), line];
    let all = b.solve(&pieces, false);
    assert_eq!(
        all,
        vec![Solution(vec![BitBoard(0x0F00), BitBoard(0x000F)]), Solution(vec![BitBoard(0x000F), BitBoard(0x0F00)])]
    );
    let first = b.solve(&pieces, true);
    assert_eq!(first, vec![all[0].clone()]);
}

#[test]
fn solve_without_solutions_is_empty() {
    let free = 0x0707u64;
    let b: Board<1> = Board::new(BitBoard::new(!free), BitBoard::new(u64::MAX));
    let pieces = [piece_tall_l().as_ref()];
    assert!(b.solve(&pieces, false).is_empty());
    assert!(b.solve(&pieces, true).is_empty());
}

#[test]
fn orientation_sets_have_no_duplicates() {
    let sets: Vec<Piece> = vec![
        piece_l().as_ref(),
        piece_tall_l().as_ref(),
        piece_line().as_ref(),
        piece_square().as_ref(),
    ];
    for p in sets {
        for (i, a) in p.variations.iter().enumerate() {
            for b in &p.variations[i + 1..] {
                assert_ne!(a, b);
            }
        }
    }
    assert_eq!(piece_l().0.len(), 8);
    assert_eq!(piece_line().0, [BitPiece(0x0F), BitPiece(0x01010101)]);
    assert_eq!(Variations::<1>::new(0x303).0, [BitPiece(0x303)]);
    assert_eq!(
        Variations::<4>::rotations_and_reflections(0x306).0,
        [BitPiece(0x306), BitPiece(0x20301), BitPiece(0x10302), BitPiece(0x603)]
    );
}

#[test]
fn solution_text() {
    let s = Solution(vec![BitBoard(0x8000_0000_0000_0000), BitBoard(0x1)]);
    let text = s.to_string();
    let lines: Vec<&str> = text.lines().collect();
    assert_eq!(lines.len(), 8);
    assert_eq!(lines[0], "A . . . . . . . ");
    assert_eq!(lines[7], ". . . . . . . B ");
    assert!(!text.ends_with('\n'));
}

#[test]
fn board_text_marks_blocked_cells() {
    let b: Board<1> = Board::new(BitBoard::new(0xFF00_0000_0000_0000), BitBoard::new(u64::MAX));
    let b = b.place_piece(BitPiece::new(0x1), 0, 0).expect("fits");
    let text = b.to_string();
    let lines: Vec<&str> = text.lines().collect();
    assert_eq!(lines[0], "X X X X X X X X ");
    assert_eq!(lines[1], ". . . . . . . . ");
    assert_eq!(lines[7], ". . . . . . . A ");
}
