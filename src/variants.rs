use vstd::array::array_as_slice;
use vstd::prelude::*;

use crate::bitboard::BitBoard;
use crate::bitpiece::BitPiece;
use crate::board::{all_solutions, orientations, search_result, solution_cells, Board, Solution};
use crate::date::CalendarDate;
use crate::piece::{
    all_orientations, mirrored_pair_orientations, piece_corner, piece_h, piece_l, piece_line,
    piece_long_z, piece_rect, piece_six, piece_square, piece_t, piece_tall_l, piece_tall_s,
    piece_tall_t, piece_u, piece_uneven_t, piece_w, piece_z, symmetric_orientations,
    turn_orientations, two_orientations, Piece,
};

verus! {

/// Cell mask of the board used by the DragonFjord, JarringWords and CreaMakerspace puzzles.
///
/// Printed with bit 63 first, the board is shaped as follows:
///
/// ```text
/// Ja Fe Ma Ap Ma Ju XX XX
/// Ju Au Se Oc No De XX XX
/// 01 02 03 04 05 06 07 XX
/// 08 09 10 11 12 13 14 XX
/// 15 16 17 18 19 20 21 XX
/// 22 23 24 25 26 27 28 XX
/// 29 30 31 XX XX XX XX XX
/// XX XX XX XX XX XX XX XX
/// ```
pub const BITBOARD_STANDARD: u64 = 0x0303_0101_0101_1FFF;

/// Cell mask of the board of the Tetromino puzzle, whose last three days stand further right:
///
/// ```text
/// Ja Fe Ma Ap Ma Ju XX XX
/// Ju Au Se Oc No De XX XX
/// 01 02 03 04 05 06 07 XX
/// 08 09 10 11 12 13 14 XX
/// 15 16 17 18 19 20 21 XX
/// 22 23 24 25 26 27 28 XX
/// XX XX XX XX 29 30 31 XX
/// XX XX XX XX XX XX XX XX
/// ```
pub const BITBOARD_TETROMINO: u64 = 0x0303_0101_0101_F1FF;

/// Cell mask of the board with the days of the week:
///
/// ```text
/// Ja Fe Ma Ap Ma Ju XX XX
/// Ju Au Se Oc No De XX XX
/// 01 02 03 04 05 06 07 XX
/// 08 09 10 11 12 13 14 XX
/// 15 16 17 18 19 20 21 XX
/// 22 23 24 25 26 27 28 XX
/// 29 30 31 Su Mo Tu We XX
/// XX XX XX XX Th Fr Sa XX
/// ```
pub const BITBOARD_WEEKDAY: u64 = 0x0303_0101_0101_01F1;

/// The bit of the cell in `row` (counted from the top) and `col` (counted from
/// the left) of the printed board.
pub open spec fn cell_at(row: int, col: int) -> int {
    63 - (8 * row + col)
}

/// The mask of the single cell `i`.
pub open spec fn cell(i: int) -> u64 {
    1u64 << (i as u64)
}

/// The cell of `month`: six months to a row, in the top two rows.
pub open spec fn month_cell(month: int) -> int {
    cell_at((month - 1) / 6, (month - 1) % 6)
}

/// The cell of `day`: seven days to a row, from the third row on.
pub open spec fn day_cell(day: int) -> int {
    cell_at(2 + (day - 1) / 7, (day - 1) % 7)
}

/// The cell of `day` on the Tetromino board: days 29 to 31 stand in columns 4
/// to 6 of the seventh row.
pub open spec fn tetromino_day_cell(day: int) -> int {
    if day <= 28 {
        day_cell(day)
    } else {
        cell_at(6, day - 25)
    }
}

/// The cell of a day of the week (0 for Sunday): Sunday to Wednesday in
/// columns 3 to 6 of the seventh row, Thursday to Saturday in columns 4 to 6
/// of the last row.
pub open spec fn weekday_cell(weekday: int) -> int {
    if weekday <= 3 {
        cell_at(6, weekday + 3)
    } else {
        cell_at(7, weekday)
    }
}

impl CalendarDate {
    /// The month, day and day of the week each have a cell on the boards.
    pub open spec fn has_cells(self) -> bool {
        1 <= self.month <= 12 && 1 <= self.day <= 31 && self.weekday < 7
    }
}

proof fn lemma_not_or(a: u64, b: u64)
    ensures
        !a & !b == !(a | b),
{
    assert(!a & !b == !(a | b)) by (bit_vector);
}

proof fn lemma_not_not(a: u64)
    ensures
        !(!a) == a,
{
    assert(!(!a) == a) by (bit_vector);
}

fn month_part(month: u32) -> (r: u64)
    requires
        1 <= month <= 12,
    ensures
        r == cell(month_cell(month as int)),
{
    if month <= 6 {
        1u64 << (64 - month) as u64
    } else {
        1u64 << (62 - month) as u64
    }
}

fn day_part(day: u32) -> (r: u64)
    requires
        1 <= day <= 31,
    ensures
        r == cell(day_cell(day as int)),
{
    if day <= 7 {
        1u64 << (48 - day) as u64
    } else if day <= 14 {
        1u64 << (47 - day) as u64
    } else if day <= 21 {
        1u64 << (46 - day) as u64
    } else if day <= 28 {
        1u64 << (45 - day) as u64
    } else {
        1u64 << (44 - day) as u64
    }
}

/// Every cell but those of the month and the day of `d`.
pub fn standard_bitboard_from_date(d: &CalendarDate) -> (r: BitBoard)
    requires
        d.has_cells(),
    ensures
        r.0 == !(cell(month_cell(d.month as int)) | cell(day_cell(d.day as int))),
{
    BitBoard(!(month_part(d.month) | day_part(d.day)))
}

/// Every cell but those of the month and the day of `d` on the Tetromino
/// board.
pub fn tetromino_bitboard_from_date(d: &CalendarDate) -> (r: BitBoard)
    requires
        d.has_cells(),
    ensures
        r.0 == !(cell(month_cell(d.month as int)) | cell(tetromino_day_cell(d.day as int))),
{
    let day = d.day;
    let day_part: u64 = if day <= 28 {
        day_part(day)
    } else {
        1u64 << (40 - day) as u64
    };
    BitBoard(!(month_part(d.month) | day_part))
}

/// Every cell but those of the month, the day and the day of the week of `d`.
pub fn weekday_bitboard_from_date(d: &CalendarDate) -> (r: BitBoard)
    requires
        d.has_cells(),
    ensures
        r.0 == !(cell(month_cell(d.month as int)) | cell(day_cell(d.day as int)) | cell(
            weekday_cell(d.weekday as int),
        )),
{
    let w = d.weekday;
    let dow_part: u64 = if w <= 3 {
        1u64 << (12 - w) as u64
    } else {
        1u64 << (7 - w) as u64
    };
    let standard = standard_bitboard_from_date(d);
    proof {
        lemma_not_or(
            cell(month_cell(d.month as int)) | cell(day_cell(d.day as int)),
            dow_part,
        );
    }
    BitBoard(standard.0 & !dow_part)
}


/// A puzzle: its board, the cells that a date leaves open, and its `N` pieces.
pub trait Variant<const N: usize>: Sized {
    /// The cells occupied on `date` before any piece is placed.
    spec fn blocked_cells(date: CalendarDate) -> u64;

    /// The orientations of each piece, in the order of placement.
    spec fn piece_orientations() -> Seq<Seq<BitPiece>>;

    /// The board of `date` with no piece placed.
    fn board(date: &CalendarDate) -> (r: Board<N>)
        requires
            date.has_cells(),
        ensures
            r == Board::<N>::starting(Self::blocked_cells(*date)),
    ;

    /// The pieces, in the order of placement.
    fn pieces() -> (r: [Piece; N])
        ensures
            orientations(r@) == Self::piece_orientations(),
    ;

    /// The first solution for `date` that a depth-first search finds, if any.
    fn solve_once(date: &CalendarDate) -> (r: Option<Solution>)
        requires
            date.has_cells(),
        ensures
            ({
                let all = all_solutions(
                    Board::<N>::starting(Self::blocked_cells(*date)),
                    Self::piece_orientations(),
                );
                match r {
                    Some(s) => all.len() > 0 && s.0@ == all[0],
                    None => all.len() == 0,
                }
            }),
    {
        let pieces = Self::pieces();
        let mut solutions = Self::board(date).solve(array_as_slice(&pieces), true);
        proof {
            assert(solution_cells(solutions@).len() == solutions@.len());
        }
        if solutions.len() > 0 {
            proof {
                assert(solution_cells(solutions@)[0] == solutions@[0].0@);
            }
            Some(solutions.swap_remove(0))
        } else {
            None
        }
    }

    /// Every solution for `date`, in the order of a depth-first search.
    fn solve_fully(date: &CalendarDate) -> (r: Vec<Solution>)
        requires
            date.has_cells(),
        ensures
            solution_cells(r@) == all_solutions(
                Board::<N>::starting(Self::blocked_cells(*date)),
                Self::piece_orientations(),
            ),
    {
        let pieces = Self::pieces();
        Self::board(date).solve(array_as_slice(&pieces), false)
    }
}

/// The A-Puzzle-A-Day calendar of DragonFjord.
pub struct DragonFjord;

impl Variant<8> for DragonFjord {
    open spec fn blocked_cells(date: CalendarDate) -> u64 {
        BITBOARD_STANDARD | (cell(month_cell(date.month as int)) | cell(day_cell(date.day as int)))
    }

    open spec fn piece_orientations() -> Seq<Seq<BitPiece>> {
        seq![
            two_orientations(0x707),
            turn_orientations(0x30103),
            turn_orientations(0x10107),
            mirrored_pair_orientations(0x30206),
            all_orientations(0x10f),
            all_orientations(0x30e),
            all_orientations(0x20f),
            all_orientations(0x30301),
        ]
    }

    fn board(date: &CalendarDate) -> (r: Board<8>) {
        let solved = standard_bitboard_from_date(date);
        proof {
            lemma_not_not(cell(month_cell(date.month as int)) | cell(day_cell(date.day as int)));
        }
        Board::new(BitBoard::new(BITBOARD_STANDARD), solved)
    }

    fn pieces() -> (r: [Piece; 8]) {
        let r = [
            piece_rect().as_ref(),
            piece_u().as_ref(),
            piece_corner().as_ref(),
            piece_tall_s().as_ref(),
            piece_tall_l().as_ref(),
            piece_long_z().as_ref(),
            piece_uneven_t().as_ref(),
            piece_six().as_ref(),
        ];
        assert(orientations(r@) =~= Self::piece_orientations());
        r
    }
}

/// The calendar puzzle of JarringWords.
pub struct JarringWords;

impl Variant<8> for JarringWords {
    open spec fn blocked_cells(date: CalendarDate) -> u64 {
        BITBOARD_STANDARD | (cell(month_cell(date.month as int)) | cell(day_cell(date.day as int)))
    }

    open spec fn piece_orientations() -> Seq<Seq<BitPiece>> {
        seq![
            two_orientations(0x707),
            turn_orientations(0x30103),
            turn_orientations(0x10107),
            turn_orientations(0x20207),
            all_orientations(0x10f),
            all_orientations(0x30e),
            all_orientations(0x20f),
            all_orientations(0x30301),
        ]
    }

    fn board(date: &CalendarDate) -> (r: Board<8>) {
        let solved = standard_bitboard_from_date(date);
        proof {
            lemma_not_not(cell(month_cell(date.month as int)) | cell(day_cell(date.day as int)));
        }
        Board::new(BitBoard::new(BITBOARD_STANDARD), solved)
    }

    fn pieces() -> (r: [Piece; 8]) {
        let r = [
            piece_rect().as_ref(),
            piece_u().as_ref(),
            piece_corner().as_ref(),
            piece_tall_t().as_ref(),
            piece_tall_l().as_ref(),
            piece_long_z().as_ref(),
            piece_uneven_t().as_ref(),
            piece_six().as_ref(),
        ];
        assert(orientations(r@) =~= Self::piece_orientations());
        r
    }
}

/// The calendar puzzle of CreaMakerspace.
pub struct CreaMakerspace;

impl Variant<8> for CreaMakerspace {
    open spec fn blocked_cells(date: CalendarDate) -> u64 {
        BITBOARD_STANDARD | (cell(month_cell(date.month as int)) | cell(day_cell(date.day as int)))
    }

    open spec fn piece_orientations() -> Seq<Seq<BitPiece>> {
        seq![
            all_orientations(0x10705),
            turn_orientations(0x30103),
            turn_orientations(0x10107),
            turn_orientations(0x60301),
            all_orientations(0x10f),
            all_orientations(0x30e),
            all_orientations(0x20f),
            all_orientations(0x30301),
        ]
    }

    fn board(date: &CalendarDate) -> (r: Board<8>) {
        let solved = standard_bitboard_from_date(date);
        proof {
            lemma_not_not(cell(month_cell(date.month as int)) | cell(day_cell(date.day as int)));
        }
        Board::new(BitBoard::new(BITBOARD_STANDARD), solved)
    }

    fn pieces() -> (r: [Piece; 8]) {
        let r = [
            piece_h().as_ref(),
            piece_u().as_ref(),
            piece_corner().as_ref(),
            piece_w().as_ref(),
            piece_tall_l().as_ref(),
            piece_long_z().as_ref(),
            piece_uneven_t().as_ref(),
            piece_six().as_ref(),
        ];
        assert(orientations(r@) =~= Self::piece_orientations());
        r
    }
}

/// The calendar puzzle with pieces of four cells.
pub struct Tetromino;

impl Variant<9> for Tetromino {
    open spec fn blocked_cells(date: CalendarDate) -> u64 {
        BITBOARD_TETROMINO | (cell(month_cell(date.month as int)) | cell(tetromino_day_cell(date.day as int)))
    }

    open spec fn piece_orientations() -> Seq<Seq<BitPiece>> {
        seq![
            symmetric_orientations(0x303),
            two_orientations(0xf),
            two_orientations(0x707),
            turn_orientations(0x30103),
            turn_orientations(0x10107),
            mirrored_pair_orientations(0x306),
            all_orientations(0x107),
            all_orientations(0x30301),
            turn_orientations(0x207),
        ]
    }

    fn board(date: &CalendarDate) -> (r: Board<9>) {
        let solved = tetromino_bitboard_from_date(date);
        proof {
            lemma_not_not(cell(month_cell(date.month as int)) | cell(tetromino_day_cell(date.day as int)));
        }
        Board::new(BitBoard::new(BITBOARD_TETROMINO), solved)
    }

    #[verifier::rlimit(60)]
    fn pieces() -> (r: [Piece; 9]) {
        let r = [
            piece_square().as_ref(),
            piece_line().as_ref(),
            piece_rect().as_ref(),
            piece_u().as_ref(),
            piece_corner().as_ref(),
            piece_z().as_ref(),
            piece_l().as_ref(),
            piece_six().as_ref(),
            piece_t().as_ref(),
        ];
        assert(orientations(r@) =~= Self::piece_orientations());
        r
    }
}

/// The calendar puzzle that also shows the day of the week.
pub struct Weekday;

impl Variant<10> for Weekday {
    open spec fn blocked_cells(date: CalendarDate) -> u64 {
        BITBOARD_WEEKDAY | (cell(month_cell(date.month as int)) | cell(day_cell(date.day as int)) | cell(weekday_cell(date.weekday as int)))
    }

    open spec fn piece_orientations() -> Seq<Seq<BitPiece>> {
        seq![
            two_orientations(0xf),
            turn_orientations(0x30103),
            all_orientations(0x107),
            all_orientations(0x10f),
            mirrored_pair_orientations(0x306),
            all_orientations(0x30e),
            mirrored_pair_orientations(0x30206),
            turn_orientations(0x20207),
            turn_orientations(0x10107),
            all_orientations(0x30301),
        ]
    }

    fn board(date: &CalendarDate) -> (r: Board<10>) {
        let solved = weekday_bitboard_from_date(date);
        proof {
            lemma_not_not(cell(month_cell(date.month as int)) | cell(day_cell(date.day as int)) | cell(weekday_cell(date.weekday as int)));
        }
        Board::new(BitBoard::new(BITBOARD_WEEKDAY), solved)
    }

    #[verifier::rlimit(60)]
    fn pieces() -> (r: [Piece; 10]) {
        let r = [
            piece_line().as_ref(),
            piece_u().as_ref(),
            piece_l().as_ref(),
            piece_tall_l().as_ref(),
            piece_z().as_ref(),
            piece_long_z().as_ref(),
            piece_tall_s().as_ref(),
            piece_tall_t().as_ref(),
            piece_corner().as_ref(),
            piece_six().as_ref(),
        ];
        assert(orientations(r@) =~= Self::piece_orientations());
        r
    }
}

/// The puzzles of the catalog, for callers that choose one at run time.
#[derive(Clone, Copy, Debug, PartialEq, Eq, Structural)]
pub enum PuzzleKind {
    DragonFjord,
    JarringWords,
    CreaMakerspace,
    Tetromino,
    Weekday,
}

impl PuzzleKind {
    /// The puzzle with index `i`, counted from 0 in the order of declaration;
    /// `None` for an index past the last.
    pub fn from_index(i: u32) -> (r: Option<PuzzleKind>)
        ensures
            i == 0 ==> r == Some(PuzzleKind::DragonFjord),
            i == 1 ==> r == Some(PuzzleKind::JarringWords),
            i == 2 ==> r == Some(PuzzleKind::CreaMakerspace),
            i == 3 ==> r == Some(PuzzleKind::Tetromino),
            i == 4 ==> r == Some(PuzzleKind::Weekday),
            i > 4 ==> r.is_none(),
    {
        match i {
            0 => Some(PuzzleKind::DragonFjord),
            1 => Some(PuzzleKind::JarringWords),
            2 => Some(PuzzleKind::CreaMakerspace),
            3 => Some(PuzzleKind::Tetromino),
            4 => Some(PuzzleKind::Weekday),
            _ => None,
        }
    }

    /// What searching this puzzle on `date` finds: every solution, or only the
    /// first one.
    pub open spec fn solutions_on(self, date: CalendarDate, only_first: bool) -> Seq<Seq<BitBoard>> {
        match self {
            PuzzleKind::DragonFjord => search_result(
                Board::<8>::starting(DragonFjord::blocked_cells(date)),
                DragonFjord::piece_orientations(),
                only_first,
            ),
            PuzzleKind::JarringWords => search_result(
                Board::<8>::starting(JarringWords::blocked_cells(date)),
                JarringWords::piece_orientations(),
                only_first,
            ),
            PuzzleKind::CreaMakerspace => search_result(
                Board::<8>::starting(CreaMakerspace::blocked_cells(date)),
                CreaMakerspace::piece_orientations(),
                only_first,
            ),
            PuzzleKind::Tetromino => search_result(
                Board::<9>::starting(Tetromino::blocked_cells(date)),
                Tetromino::piece_orientations(),
                only_first,
            ),
            PuzzleKind::Weekday => search_result(
                Board::<10>::starting(Weekday::blocked_cells(date)),
                Weekday::piece_orientations(),
                only_first,
            ),
        }
    }

    /// Solve this puzzle for `date`: every solution, or with `only_first` the
    /// first one alone, in the order of a depth-first search.
    pub fn solve(self, date: &CalendarDate, only_first: bool) -> (r: Vec<Solution>)
        requires
            date.has_cells(),
        ensures
            solution_cells(r@) == self.solutions_on(*date, only_first),
    {
        match self {
            PuzzleKind::DragonFjord => {
                let pieces = DragonFjord::pieces();
                DragonFjord::board(date).solve(array_as_slice(&pieces), only_first)
            },
            PuzzleKind::JarringWords => {
                let pieces = JarringWords::pieces();
                JarringWords::board(date).solve(array_as_slice(&pieces), only_first)
            },
            PuzzleKind::CreaMakerspace => {
                let pieces = CreaMakerspace::pieces();
                CreaMakerspace::board(date).solve(array_as_slice(&pieces), only_first)
            },
            PuzzleKind::Tetromino => {
                let pieces = Tetromino::pieces();
                Tetromino::board(date).solve(array_as_slice(&pieces), only_first)
            },
            PuzzleKind::Weekday => {
                let pieces = Weekday::pieces();
                Weekday::board(date).solve(array_as_slice(&pieces), only_first)
            },
        }
    }
}

} // verus!
