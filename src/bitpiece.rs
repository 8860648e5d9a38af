use vstd::prelude::*;

use crate::bitboard::BitBoard;

verus! {

/// A piece shape in a 4x4 local grid.
///
/// The grid uses the low four bits of each byte of a `u32`, so that bit
/// `8 * row + column` holds cell (column, row). Rows are as wide as the rows of
/// a [`BitBoard`], which lets a shape be placed on a board by one shift. The
/// high four bits of each byte are never set in a shape.
///
/// Example "bold plus" piece (most significant bit first):
///
/// ```text
/// 0 0 0 0 0 1 1 0
/// 0 0 0 0 1 1 1 1
/// 0 0 0 0 1 1 1 1
/// 0 0 0 0 0 1 1 0
/// ```
#[derive(PartialEq, Eq, Structural, Clone, Copy, Debug)]
pub struct BitPiece(pub u32);

/// The cells of the 4x4 local grid.
pub const GRID_MASK: u32 = 0x0F0F_0F0F;

/// The cells of the local grid in columns `0 .. w` (for `1 <= w <= 4`).
pub open spec fn column_mask(w: u32) -> u32 {
    if w <= 1 {
        0x0101_0101
    } else if w == 2 {
        0x0303_0303
    } else if w == 3 {
        0x0707_0707
    } else {
        GRID_MASK
    }
}

/// The cells of the local grid in rows `0 .. h` (for `1 <= h <= 4`).
pub open spec fn row_mask(h: u32) -> u32 {
    if h <= 1 {
        0x0000_000F
    } else if h == 2 {
        0x0000_0F0F
    } else if h == 3 {
        0x000F_0F0F
    } else {
        GRID_MASK
    }
}

/// Every set cell of `s` lies in the 4x4 local grid.
pub open spec fn in_grid(s: u32) -> bool {
    s & !GRID_MASK == 0
}

/// The fewest columns, counted from column 0, that hold every cell of `s`; 4
/// where no fewer do.
pub open spec fn shape_width(s: u32) -> nat {
    if s & !column_mask(1) == 0 {
        1
    } else if s & !column_mask(2) == 0 {
        2
    } else if s & !column_mask(3) == 0 {
        3
    } else {
        4
    }
}

/// The fewest rows, counted from row 0, that hold every cell of `s`; 4 where
/// no fewer do.
pub open spec fn shape_height(s: u32) -> nat {
    if s & !row_mask(1) == 0 {
        1
    } else if s & !row_mask(2) == 0 {
        2
    } else if s & !row_mask(3) == 0 {
        3
    } else {
        4
    }
}

/// `s` touches column 0 and row 0 (and so is not empty).
pub open spec fn is_aligned(s: u32) -> bool {
    s & column_mask(1) != 0 && s & row_mask(1) != 0
}

/// A canonical piece shape: non-empty, inside the local grid, and aligned.
pub open spec fn is_shape(s: u32) -> bool {
    in_grid(s) && is_aligned(s)
}

/// How many of the low columns of the grid are empty, at most three.
pub open spec fn empty_low_columns(s: u32) -> u32 {
    if s & column_mask(3) == 0 {
        3
    } else if s & column_mask(2) == 0 {
        2
    } else if s & column_mask(1) == 0 {
        1
    } else {
        0
    }
}

/// How many of the low rows of the grid are empty, at most three.
pub open spec fn empty_low_rows(s: u32) -> u32 {
    if s & row_mask(3) == 0 {
        3
    } else if s & row_mask(2) == 0 {
        2
    } else if s & row_mask(1) == 0 {
        1
    } else {
        0
    }
}

/// `s` moved towards the low end of the grid past its empty columns, then past
/// its empty rows.
pub open spec fn align_shape(s: u32) -> u32 {
    let t = s >> empty_low_columns(s);
    t >> (8 * empty_low_rows(t))
}

/// The four cells of `row` (a 4-bit row) stood up as column `col`: cell `k` of
/// the row goes to row `k`.
pub open spec fn row_as_column(row: u32, col: u32) -> u32 {
    ((row & 1) << col) | (((row >> 1) & 1) << (8 + col)) | (((row >> 2) & 1) << (16 + col)) | (((
    row >> 3) & 1) << (24 + col))
}

/// Quarter turn of the local grid: cell (x, y) goes to (3 - y, x).
pub open spec fn turn_grid(s: u32) -> u32 {
    row_as_column(s & 0xF, 3) | row_as_column((s >> 8) & 0xF, 2) | row_as_column((s >> 16) & 0xF, 1)
        | row_as_column((s >> 24) & 0xF, 0)
}

/// Mirror image of the local grid: cell (x, y) goes to (3 - x, y).
pub open spec fn mirror_grid(s: u32) -> u32 {
    ((s & 0x0101_0101) << 3) | ((s & 0x0202_0202) << 1) | ((s & 0x0404_0404) >> 1) | ((s
        & 0x0808_0808) >> 3)
}

/// The shape turned a quarter clockwise, then aligned.
pub open spec fn rotate_shape(s: u32) -> u32 {
    align_shape(turn_grid(s))
}

/// The shape mirrored left to right, then aligned.
pub open spec fn flip_shape(s: u32) -> u32 {
    align_shape(mirror_grid(s))
}

/// The cells of the grid that the transform loops have read before cell
/// (`j`, `i`): rows `0 .. i` and the first `j` cells of row `i`.
pub open spec fn cells_before(i: u32, j: u32) -> u32 {
    (if i == 0 {
        0u32
    } else {
        row_mask(i)
    }) | ((((1u32 << j) - 1) as u32) << (8 * i))
}

proof fn lemma_turn_step(s: u32, i: u32, j: u32)
    requires
        i < 4,
        j < 4,
    ensures
        s & (1u32 << (8 * i + j)) != 0 ==> turn_grid(s & cells_before(i, j)) | (1u32 << ((8 * j + 3 - i) as u32))
            == turn_grid(s & cells_before(i, (j + 1) as u32)),
        s & (1u32 << (8 * i + j)) == 0 ==> turn_grid(s & cells_before(i, j)) == turn_grid(
            s & cells_before(i, (j + 1) as u32),
        ),
{
    assert((s & (1u32 << (8 * i + j)) != 0 ==> turn_grid(s & cells_before(i, j)) | (1u32 << ((8 * j + 3 - i) as u32))
        == turn_grid(s & cells_before(i, (j + 1) as u32))) && (s & (1u32 << (8 * i + j)) == 0
        ==> turn_grid(s & cells_before(i, j)) == turn_grid(s & cells_before(i, (j + 1) as u32))))
        by (bit_vector)
        requires
            i < 4,
            j < 4,
    ;
}

proof fn lemma_mirror_step(s: u32, i: u32, j: u32)
    requires
        i < 4,
        j < 4,
    ensures
        s & (1u32 << (8 * i + j)) != 0 ==> mirror_grid(s & cells_before(i, j)) | (1u32 << ((8 * i + 3 - j) as u32))
            == mirror_grid(s & cells_before(i, (j + 1) as u32)),
        s & (1u32 << (8 * i + j)) == 0 ==> mirror_grid(s & cells_before(i, j)) == mirror_grid(
            s & cells_before(i, (j + 1) as u32),
        ),
{
    assert((s & (1u32 << (8 * i + j)) != 0 ==> mirror_grid(s & cells_before(i, j)) | (1u32 << ((8 * i + 3 - j) as u32))
        == mirror_grid(s & cells_before(i, (j + 1) as u32))) && (s & (1u32 << (8 * i + j)) == 0
        ==> mirror_grid(s & cells_before(i, j)) == mirror_grid(s & cells_before(i, (j + 1) as u32))))
        by (bit_vector)
        requires
            i < 4,
            j < 4,
    ;
}

proof fn lemma_loop_bounds(s: u32, i: u32)
    requires
        i < 4,
    ensures
        cells_before(i, 4) == cells_before((i + 1) as u32, 0),
        turn_grid(s & cells_before(0, 0)) == 0,
        mirror_grid(s & cells_before(0, 0)) == 0,
        turn_grid(s & cells_before(4, 0)) == turn_grid(s),
        mirror_grid(s & cells_before(4, 0)) == mirror_grid(s),
{
    assert(cells_before(i, 4) == cells_before((i + 1) as u32, 0)) by (bit_vector)
        requires
            i < 4,
    ;
    assert(turn_grid(s & cells_before(0, 0)) == 0 && mirror_grid(s & cells_before(0, 0)) == 0
        && turn_grid(s & cells_before(4, 0)) == turn_grid(s) && mirror_grid(
        s & cells_before(4, 0),
    ) == mirror_grid(s)) by (bit_vector);
}

proof fn lemma_align_steps(s: u32)
    ensures
        align_shape(s) == ({
            let t = if s & 0x0707_0707 == 0 {
                s >> 3
            } else if s & 0x0303_0303 == 0 {
                s >> 2
            } else if s & 0x0101_0101 == 0 {
                s >> 1
            } else {
                s
            };
            if t & 0x000F_0F0F == 0 {
                t >> 24
            } else if t & 0x0000_0F0F == 0 {
                t >> 16
            } else if t & 0x0000_000F == 0 {
                t >> 8
            } else {
                t
            }
        }),
{
    assert(align_shape(s) == ({
        let t = if s & 0x0707_0707 == 0 {
            s >> 3
        } else if s & 0x0303_0303 == 0 {
            s >> 2
        } else if s & 0x0101_0101 == 0 {
            s >> 1
        } else {
            s
        };
        if t & 0x000F_0F0F == 0 {
            t >> 24
        } else if t & 0x0000_0F0F == 0 {
            t >> 16
        } else if t & 0x0000_000F == 0 {
            t >> 8
        } else {
            t
        }
    })) by (bit_vector);
}

impl BitPiece {
    pub fn new(b: u32) -> (r: BitPiece)
        ensures
            r.0 == b,
    {
        BitPiece(b)
    }

    /// Number of columns the shape spans, counted from column 0.
    pub fn width(&self) -> (r: usize)
        ensures
            r == shape_width(self.0),
    {
        let s = self.0;
        assert(!column_mask(1) == 0xFEFE_FEFEu32 && !column_mask(2) == 0xFCFC_FCFCu32
            && !column_mask(3) == 0xF8F8_F8F8u32) by (bit_vector);
        if s & 0xFEFE_FEFE == 0 {
            1
        } else if s & 0xFCFC_FCFC == 0 {
            2
        } else if s & 0xF8F8_F8F8 == 0 {
            3
        } else {
            4
        }
    }

    /// Number of rows the shape spans, counted from row 0.
    pub fn height(&self) -> (r: usize)
        ensures
            r == shape_height(self.0),
    {
        let s = self.0;
        assert(!row_mask(1) == 0xFFFF_FFF0u32 && !row_mask(2) == 0xFFFF_F0F0u32 && !row_mask(3)
            == 0xFFF0_F0F0u32) by (bit_vector);
        if s & 0xFFFF_FFF0 == 0 {
            1
        } else if s & 0xFFFF_F0F0 == 0 {
            2
        } else if s & 0xFFF0_F0F0 == 0 {
            3
        } else {
            4
        }
    }

    /// Mirror the shape left to right, (x, y) to (3 - x, y), and align it.
    pub fn flip(&self) -> (r: BitPiece)
        ensures
            r.0 == flip_shape(self.0),
    {
        let s = self.0;
        let mut bp: u32 = 0;
        let mut i: u32 = 0;
        proof {
            lemma_loop_bounds(s, 0);
        }
        while i < 4
            invariant
                i <= 4,
                bp == mirror_grid(s & cells_before(i, 0)),
            decreases 4 - i,
        {
            let mut j: u32 = 0;
            while j < 4
                invariant
                    i < 4,
                    j <= 4,
                    bp == mirror_grid(s & cells_before(i, j)),
                decreases 4 - j,
            {
                proof {
                    lemma_mirror_step(s, i, j);
                }
                if s & (1u32 << (8 * i + j)) != 0 {
                    bp = bp | (1u32 << (8 * i + 3 - j));
                }
                j += 1;
            }
            proof {
                lemma_loop_bounds(s, i);
            }
            i += 1;
        }
        proof {
            lemma_loop_bounds(s, 0);
        }
        BitPiece(bp).align()
    }

    /// Turn the shape a quarter clockwise, (x, y) to (3 - y, x), and align it.
    pub fn rotate(&self) -> (r: BitPiece)
        ensures
            r.0 == rotate_shape(self.0),
    {
        let s = self.0;
        let mut bp: u32 = 0;
        let mut i: u32 = 0;
        proof {
            lemma_loop_bounds(s, 0);
        }
        while i < 4
            invariant
                i <= 4,
                bp == turn_grid(s & cells_before(i, 0)),
            decreases 4 - i,
        {
            let mut j: u32 = 0;
            while j < 4
                invariant
                    i < 4,
                    j <= 4,
                    bp == turn_grid(s & cells_before(i, j)),
                decreases 4 - j,
            {
                proof {
                    lemma_turn_step(s, i, j);
                }
                if s & (1u32 << (8 * i + j)) != 0 {
                    bp = bp | (1u32 << (8 * j + 3 - i));
                }
                j += 1;
            }
            proof {
                lemma_loop_bounds(s, i);
            }
            i += 1;
        }
        proof {
            lemma_loop_bounds(s, 0);
        }
        BitPiece(bp).align()
    }

    /// Move the shape to the low end of the grid: past its empty low columns,
    /// then past its empty low rows.
    ///
    /// ```text
    /// 0 0 0 0 1 1 1 0              0 0 0 0 0 0 0 0
    /// 0 0 0 0 1 1 0 0   becomes    0 0 0 0 0 0 0 0
    /// 0 0 0 0 0 0 0 0              0 0 0 0 0 1 1 1
    /// 0 0 0 0 0 0 0 0              0 0 0 0 0 1 1 0
    /// ```
    pub fn align(&self) -> (r: BitPiece)
        ensures
            r.0 == align_shape(self.0),
    {
        proof {
            lemma_align_steps(self.0);
        }
        let mut b = self.0;
        if b & 0x0707_0707 == 0 {
            b = b >> 3;
        } else if b & 0x0303_0303 == 0 {
            b = b >> 2;
        } else if b & 0x0101_0101 == 0 {
            b = b >> 1;
        }
        if b & 0x000F_0F0F == 0 {
            b = b >> 24;
        } else if b & 0x0000_0F0F == 0 {
            b = b >> 16;
        } else if b & 0x0000_000F == 0 {
            b = b >> 8;
        }
        BitPiece(b)
    }

    /// The board cells that the shape covers with its cell (0, 0) at board
    /// column `x` of row `y`: the mask shifted by `8 * y + x`.
    pub fn to_bitboard(self, x: usize, y: usize) -> (r: BitBoard)
        requires
            8 * y + x < 64,
        ensures
            r.0 == placed_cells(self.0, x as u64, y as u64),
    {
        BitBoard::new((self.0 as u64) << (y * 8 + x) as u64)
    }
}

/// The board cells covered by shape `s` placed at column `x` of row `y`.
pub open spec fn placed_cells(s: u32, x: u64, y: u64) -> u64 {
    (s as u64) << (8 * y + x)
}

} // verus!
