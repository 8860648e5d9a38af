use today_puzzle::bitboard::BitBoard;

#[test]
fn has_small_gaps() {
    assert!(!BitBoard(0x0).has_small_gaps());
    assert!(!BitBoard(0xFFFFFFFFFFFFFFFF).has_small_gaps());
    assert!(!BitBoard(0xFE).has_small_gaps());
    assert!(!BitBoard(0xF0).has_small_gaps());
    assert!(!BitBoard(0xAAAAAAAAAAAAAAAA).has_small_gaps());
    assert!(!BitBoard(0x5555555555555555).has_small_gaps());
    assert!(!BitBoard(0xA5A5A5A5A5A5A5A5).has_small_gaps());
    assert!(BitBoard(0xFFFE).has_small_gaps());
    assert!(BitBoard(0xAA55AA55AA55AA55).has_small_gaps());
    assert!(BitBoard(0xFFFFFFF7FFFFFFFF).has_small_gaps());
}

#[test]
fn single_enclosed_cell_is_a_gap() {
    // Cell 27 (row 3, column 3) is the only free cell.
    let b = BitBoard::new(!(1u64 << 27));
    assert!(b.has_small_gaps());
    // A free neighbour next to it means no single-cell hole.
    let b = BitBoard::new(!((1u64 << 27) | (1u64 << 28)));
    assert!(!b.has_small_gaps());
    // A free corner cell enclosed by its two neighbours on the board.
    let b = BitBoard::new(!1u64);
    assert!(b.has_small_gaps());
}

#[test]
fn intersects_shared_cells() {
    assert!(BitBoard::new(0x0F).intersects(BitBoard::new(0x18)));
    assert!(!BitBoard::new(0x0F).intersects(BitBoard::new(0xF0)));
    assert!(!BitBoard::new(0).intersects(BitBoard::new(u64::MAX)));
}

#[test]
fn bitwise_operators() {
    let a = BitBoard::new(0b1100);
    let b = BitBoard::new(0b1010);
    assert_eq!(a & b, BitBoard(0b1000));
    assert_eq!(a | b, BitBoard(0b1110));
    assert_eq!(a ^ b, BitBoard(0b0110));
    assert_eq!(!BitBoard(0), BitBoard(u64::MAX));
}

#[test]
fn bitboard_text() {
    let text = BitBoard::new(0x8000_0000_0000_0001).to_string();
    let lines: Vec<&str> = text.lines().collect();
    assert_eq!(lines.len(), 8);
    assert_eq!(lines[0], "X . . . . . . . ");
    assert_eq!(lines[7], ". . . . . . . X ");
    assert!(text.ends_with('\n'));
    assert_eq!(text.len(), 8 * 17);
}
