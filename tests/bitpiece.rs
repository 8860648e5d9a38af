use today_puzzle::bitboard::BitBoard;
use today_puzzle::bitpiece::BitPiece;

#[test]
fn piece_align() {
    assert_eq!(BitPiece(0x103), BitPiece(0x103).align());
    assert_eq!(BitPiece(0x203), BitPiece(0x203 << 2).align());
    assert_eq!(BitPiece(0x307), BitPiece(0x307 << 8).align());
    assert_eq!(BitPiece(0x303), BitPiece(0x303 << 10).align());
    assert_eq!(BitPiece(0xF0808), BitPiece(0xF080800).align());
}

#[test]
fn piece_rotate() {
    let piece = BitPiece(0x301);
    assert_eq!(BitPiece(0x103), piece.rotate());
    assert_eq!(BitPiece(0x203), piece.rotate().rotate());
    assert_eq!(BitPiece(0x302), piece.rotate().rotate().rotate());
    assert_eq!(BitPiece(0x301), piece.rotate().rotate().rotate().rotate());
}

#[test]
fn piece_flip() {
    assert_eq!(BitPiece(0x203), BitPiece(0x103).flip());
    assert_eq!(BitPiece(0x103070F), BitPiece(0x80C0E0F).flip());
    assert_eq!(BitPiece(0x1020408), BitPiece(0x8040201).flip());
    assert_eq!(BitPiece(0x1010101), BitPiece(0x1010101).flip());
}

#[test]
fn piece_to_bitboard() {
    assert_eq!(BitPiece(0x203).to_bitboard(0, 0), BitBoard::new(0x0203));
    assert_eq!(BitPiece(0x203).to_bitboard(1, 0), BitBoard::new(0x406));
    assert_eq!(BitPiece(0x203).to_bitboard(0, 1), BitBoard::new(0x020300));
    assert_eq!(BitPiece(0x203).to_bitboard(1, 1), BitBoard::new(0x040600));
    assert_eq!(
        BitPiece(0x0F0F0F0F).to_bitboard(0, 0),
        BitBoard::new(0x0F0F0F0F)
    );
    assert_eq!(
        BitPiece(0x0A0A0A0A).to_bitboard(4, 4),
        BitBoard::new(0xA0A0A0A000000000)
    );
}

const SHAPES: [u32; 16] = [
    0x707, 0x30103, 0x10107, 0x30206, 0x10F, 0x30E, 0x20F, 0x30301, 0x60301, 0x10705, 0x20207,
    0x303, 0x107, 0x207, 0x0F, 0x306,
];

#[test]
fn four_rotations_restore_every_shape() {
    for s in SHAPES {
        let p = BitPiece::new(s);
        assert_eq!(p.rotate().rotate().rotate().rotate(), p);
    }
}

#[test]
fn two_flips_restore_every_shape() {
    for s in SHAPES {
        let p = BitPiece::new(s);
        assert_eq!(p.flip().flip(), p);
    }
}

#[test]
fn align_twice_is_align_once() {
    for s in [0x707u32 << 9, 0x30103 << 1, 0x0F << 16, 0x306 << 8, 0x1, 0x8000000] {
        let once = BitPiece::new(s).align();
        assert_eq!(once.align(), once);
    }
}

#[test]
fn placement_at_origin_is_the_shape() {
    for s in SHAPES {
        assert_eq!(BitPiece::new(s).to_bitboard(0, 0), BitBoard::new(s as u64));
    }
}

#[test]
fn width_and_height() {
    assert_eq!(BitPiece::new(0x1).width(), 1);
    assert_eq!(BitPiece::new(0x1).height(), 1);
    assert_eq!(BitPiece::new(0x707).width(), 3);
    assert_eq!(BitPiece::new(0x707).height(), 2);
    assert_eq!(BitPiece::new(0x0F).width(), 4);
    assert_eq!(BitPiece::new(0x0F).height(), 1);
    assert_eq!(BitPiece::new(0x01010101).width(), 1);
    assert_eq!(BitPiece::new(0x01010101).height(), 4);
    assert_eq!(BitPiece::new(0x30103).width(), 2);
    assert_eq!(BitPiece::new(0x30103).height(), 3);
}
