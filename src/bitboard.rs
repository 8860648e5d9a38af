use vstd::prelude::*;

use crate::text::push_char;

verus! {

/// An 8x8 board as a 64-bit cell mask: bit `8 * row + column` is set when that
/// cell is occupied or blocked.
#[derive(PartialEq, Eq, Structural, Clone, Copy, Debug, Default)]
pub struct BitBoard(pub u64);

impl core::ops::BitAnd for BitBoard {
    type Output = BitBoard;

    fn bitand(self, other: BitBoard) -> BitBoard {
        BitBoard(self.0 & other.0)
    }
}

impl vstd::std_specs::ops::BitAndSpecImpl for BitBoard {
    open spec fn obeys_bitand_spec() -> bool {
        true
    }

    open spec fn bitand_req(self, other: BitBoard) -> bool {
        true
    }

    open spec fn bitand_spec(self, other: BitBoard) -> BitBoard {
        BitBoard(self.0 & other.0)
    }
}

impl core::ops::BitOr for BitBoard {
    type Output = BitBoard;

    fn bitor(self, other: BitBoard) -> BitBoard {
        BitBoard(self.0 | other.0)
    }
}

impl vstd::std_specs::ops::BitOrSpecImpl for BitBoard {
    open spec fn obeys_bitor_spec() -> bool {
        true
    }

    open spec fn bitor_req(self, other: BitBoard) -> bool {
        true
    }

    open spec fn bitor_spec(self, other: BitBoard) -> BitBoard {
        BitBoard(self.0 | other.0)
    }
}

impl core::ops::BitXor for BitBoard {
    type Output = BitBoard;

    fn bitxor(self, other: BitBoard) -> BitBoard {
        BitBoard(self.0 ^ other.0)
    }
}

impl vstd::std_specs::ops::BitXorSpecImpl for BitBoard {
    open spec fn obeys_bitxor_spec() -> bool {
        true
    }

    open spec fn bitxor_req(self, other: BitBoard) -> bool {
        true
    }

    open spec fn bitxor_spec(self, other: BitBoard) -> BitBoard {
        BitBoard(self.0 ^ other.0)
    }
}

impl core::ops::Not for BitBoard {
    type Output = BitBoard;

    fn not(self) -> BitBoard {
        BitBoard(!self.0)
    }
}

impl vstd::std_specs::ops::NotSpecImpl for BitBoard {
    open spec fn obeys_not_spec() -> bool {
        true
    }

    open spec fn not_req(self) -> bool {
        true
    }

    open spec fn not_spec(self) -> BitBoard {
        BitBoard(!self.0)
    }
}

/// Cell `i` of the mask `b` is set.
pub open spec fn cell_set(b: u64, i: u64) -> bool {
    (b >> i) & 1 == 1
}

/// Cell `i` is free while each of its neighbours on the board, one row up or
/// down and one bit to either side, is set: no piece can ever cover it.
///
/// Bits `i - 1` and `i + 1` are taken as neighbours even where they lie in the
/// adjacent row; this only makes the test stricter.
pub open spec fn isolated_cell(b: u64, i: u64) -> bool {
    &&& i < 64
    &&& !cell_set(b, i)
    &&& (i >= 8 ==> cell_set(b, (i - 8) as u64))
    &&& (i >= 1 ==> cell_set(b, (i - 1) as u64))
    &&& (i + 1 < 64 ==> cell_set(b, (i + 1) as u64))
    &&& (i + 8 < 64 ==> cell_set(b, (i + 8) as u64))
}

/// The cross of neighbours around cell 9, aligned to the low end of the board:
/// bits 1, 8, 10 and 17.
pub const NEIGHBOR_PATTERN: u64 = 0x020502;

/// The neighbour cross moved so that it surrounds cell `i`.
pub open spec fn neighbors_of(i: u64) -> u64 {
    if i < 9 {
        NEIGHBOR_PATTERN >> ((9 - i) as u64)
    } else {
        NEIGHBOR_PATTERN << ((i - 9) as u64)
    }
}

proof fn lemma_isolated_cell_by_pattern(b: u64, i: u64)
    requires
        i < 64,
    ensures
        isolated_cell(b, i) <==> (b & (1u64 << i) == 0 && (!b) & neighbors_of(i) == 0),
{
    assert(isolated_cell(b, i) <==> (b & (1u64 << i) == 0 && (!b) & neighbors_of(i) == 0))
        by (bit_vector)
        requires
            i < 64,
    ;
}

/// The text of the first `n` cells of `b`, from bit 0 on: `X` for a set cell
/// and `.` for a free one, each followed by a space, and a line break after
/// each eighth cell.
pub open spec fn board_text(b: u64, n: nat) -> Seq<char>
    decreases n,
{
    if n == 0 {
        seq![]
    } else {
        let i = (n - 1) as u64;
        board_text(b, (n - 1) as nat) + seq![if cell_set(b, i) { 'X' } else { '.' }, ' ']
            + if i % 8 == 7 {
            seq!['\n']
        } else {
            seq![]
        }
    }
}

/// Cell `i` is set exactly when the mask of that cell meets `b`.
pub proof fn lemma_cell_set_by_mask(b: u64, i: u64)
    requires
        i < 64,
    ensures
        cell_set(b, i) == (b & (1u64 << i) != 0),
{
    assert(cell_set(b, i) == (b & (1u64 << i) != 0)) by (bit_vector)
        requires
            i < 64,
    ;
}

impl BitBoard {
    /// The board as text: eight lines of eight cells, bit 0 first.
    pub fn to_string(&self) -> (r: String)
        ensures
            r@ == board_text(self.0, 64),
    {
        let mut s = String::new();
        let mut x: u64 = 0;
        while x < 64
            invariant
                x <= 64,
                s@ == board_text(self.0, x as nat),
            decreases 64 - x,
        {
            proof {
                lemma_cell_set_by_mask(self.0, x);
            }
            let set = self.0 & (1u64 << x) != 0;
            push_char(&mut s, if set { 'X' } else { '.' });
            push_char(&mut s, ' ');
            if x % 8 == 7 {
                push_char(&mut s, '\n');
            }
            proof {
                assert(s@ =~= board_text(self.0, (x + 1) as nat));
            }
            x += 1;
        }
        s
    }

    /// Construct a board from its cell mask.
    pub fn new(b: u64) -> (r: BitBoard)
        ensures
            r.0 == b,
    {
        BitBoard(b)
    }

    /// The two boards share at least one set cell.
    pub fn intersects(&self, other: BitBoard) -> (r: bool)
        ensures
            r == (self.0 & other.0 != 0),
    {
        self.0 & other.0 != 0
    }

    /// True when some free cell is enclosed by set cells on every side, so that
    /// no piece (each covers at least four cells) can ever fill it.
    ///
    /// A board with such a hole cannot be completed, which lets a search drop
    /// it early. Larger enclosed pockets are not detected.
    pub fn has_small_gaps(self) -> (r: bool)
        ensures
            r == exists|i: u64| #[trigger] isolated_cell(self.0, i),
    {
        let mut i: u64 = 0;
        while i < 64
            invariant
                i <= 64,
                forall|k: u64| k < i ==> !#[trigger] isolated_cell(self.0, k),
            decreases 64 - i,
        {
            proof {
                lemma_isolated_cell_by_pattern(self.0, i);
            }
            if self.0 & (1u64 << i) == 0 {
                let neighbor_pattern = if i < 9 {
                    NEIGHBOR_PATTERN >> (9 - i)
                } else {
                    NEIGHBOR_PATTERN << (i - 9)
                };
                let neighbors = (!self.0) & neighbor_pattern;
                if neighbors == 0 {
                    return true;
                }
            }
            i += 1;
        }
        false
    }
}

} // verus!
