use vstd::array::{array_as_slice, spec_array_fill_for_copy_type, spec_array_update};
use vstd::prelude::*;
use vstd::slice::slice_to_vec;

use crate::bitboard::{cell_set, lemma_cell_set_by_mask, BitBoard};
use crate::bitpiece::{placed_cells, shape_height, shape_width, BitPiece};
use crate::piece::Piece;
use crate::text::push_char;

verus! {

broadcast use vstd::array::group_array_axioms;

/// A partial solution with room for `N` pieces: the occupied cells (blocked
/// cells and placed pieces together), the cells of each placed piece in the
/// order of placement, and how many pieces are placed.
#[derive(Copy, Clone, PartialEq, Debug)]
pub struct Board<const N: usize> {
    pub combined: BitBoard,
    pub pieces: [BitBoard; N],
    pub piece_count: usize,
}

/// A complete placement: the cells of each piece, in the order of the piece
/// list.
#[derive(Clone, PartialEq, Debug)]
pub struct Solution(pub Vec<BitBoard>);

/// The board cells of orientation `v` placed in column `x`, in each of rows
/// `0 .. ny`.
pub open spec fn column_placements(v: u32, x: nat, ny: nat) -> Seq<u64> {
    Seq::new(ny, |y: int| placed_cells(v, x as u64, y as u64))
}

/// The placements of orientation `v` that stay on the board, in columns
/// `0 .. nx`, column by column.
pub open spec fn orientation_placements(v: u32, nx: nat) -> Seq<u64>
    decreases nx,
{
    if nx == 0 {
        seq![]
    } else {
        orientation_placements(v, (nx - 1) as nat) + column_placements(
            v,
            (nx - 1) as nat,
            (9 - shape_height(v)) as nat,
        )
    }
}

/// Every placement on the board of each orientation in `vs`, in order.
pub open spec fn candidate_placements(vs: Seq<BitPiece>) -> Seq<u64>
    decreases vs.len(),
{
    if vs.len() == 0 {
        seq![]
    } else {
        candidate_placements(vs.drop_last()) + orientation_placements(
            vs.last().0,
            (9 - shape_width(vs.last().0)) as nat,
        )
    }
}

impl<const N: usize> Board<N> {
    /// The board with the cells `combined` occupied and no piece placed.
    pub open spec fn starting(combined: u64) -> Board<N> {
        Board {
            combined: BitBoard(combined),
            pieces: spec_array_fill_for_copy_type(BitBoard(0)),
            piece_count: 0,
        }
    }

    pub open spec fn wf(self) -> bool {
        self.piece_count <= N
    }

    pub open spec fn is_complete(self) -> bool {
        self.piece_count >= N
    }

    /// The cells `m` are all free.
    pub open spec fn fits(self, m: u64) -> bool {
        m & self.combined.0 == 0
    }

    /// The board with `m` placed as its next piece.
    pub open spec fn with_piece(self, m: u64) -> Board<N> {
        Board {
            combined: BitBoard(self.combined.0 | m),
            pieces: spec_array_update(self.pieces, self.piece_count as int, BitBoard(m)),
            piece_count: (self.piece_count + 1) as usize,
        }
    }

    /// The boards that follow from placing each fitting mask of `ms`, in order.
    pub open spec fn fitting_placements(self, ms: Seq<u64>) -> Seq<Board<N>>
        decreases ms.len(),
    {
        if ms.len() == 0 {
            seq![]
        } else {
            self.fitting_placements(ms.drop_last()) + if self.fits(ms.last()) {
                seq![self.with_piece(ms.last())]
            } else {
                seq![]
            }
        }
    }

    /// The boards that follow from placing a piece with orientations `vs` in
    /// each way that fits.
    pub open spec fn children(self, vs: Seq<BitPiece>) -> Seq<Board<N>> {
        self.fitting_placements(candidate_placements(vs))
    }
}

/// The orientations of each piece of a piece list.
pub open spec fn orientations(pieces: Seq<Piece>) -> Seq<Seq<BitPiece>> {
    pieces.map_values(|p: Piece| p.variations@)
}

/// The boards that a depth-first search visits from `stack`, whose top is its
/// last element, when at most `depth` more pieces are placed below a board.
/// Piece `k` of the list has the orientations `pieces[k]`.
pub open spec fn visit_order<const N: usize>(
    stack: Seq<Board<N>>,
    pieces: Seq<Seq<BitPiece>>,
    depth: nat,
) -> Seq<Board<N>>
    decreases depth, stack.len(),
{
    if stack.len() == 0 {
        seq![]
    } else {
        let top = stack.last();
        let below = visit_order(stack.drop_last(), pieces, depth);
        if top.is_complete() || depth == 0 || top.piece_count >= pieces.len() {
            seq![top] + below
        } else {
            seq![top] + visit_order(
                top.children(pieces[top.piece_count as int]),
                pieces,
                (depth - 1) as nat,
            ) + below
        }
    }
}

/// The piece cells of the complete boards of `boards`, in order.
pub open spec fn complete_solutions<const N: usize>(boards: Seq<Board<N>>) -> Seq<Seq<BitBoard>>
    decreases boards.len(),
{
    if boards.len() == 0 {
        seq![]
    } else {
        complete_solutions(boards.drop_last()) + if boards.last().is_complete() {
            seq![boards.last().pieces@]
        } else {
            seq![]
        }
    }
}

/// Every solution that completes `b` with `pieces`, in the order of a
/// depth-first search.
pub open spec fn all_solutions<const N: usize>(b: Board<N>, pieces: Seq<Seq<BitPiece>>) -> Seq<
    Seq<BitBoard>,
> {
    complete_solutions(visit_order(seq![b], pieces, N as nat))
}

/// What a search returns: every solution, or only the first one.
pub open spec fn search_result<const N: usize>(
    b: Board<N>,
    pieces: Seq<Seq<BitPiece>>,
    only_first: bool,
) -> Seq<Seq<BitBoard>> {
    let all = all_solutions(b, pieces);
    if only_first && all.len() > 0 {
        all.take(1)
    } else {
        all
    }
}

/// The cells of each solution.
pub open spec fn solution_cells(sols: Seq<Solution>) -> Seq<Seq<BitBoard>> {
    sols.map_values(|s: Solution| s.0@)
}

/// The letter of the piece at index `i`: `A` for the first.
pub open spec fn piece_letter(i: int) -> char {
    (65 + i) as char
}

/// The character shown for an uncovered cell `bit`: `X` where `combined` holds
/// it, `.` elsewhere.
pub open spec fn blank_char(combined: u64, bit: u64) -> char {
    if cell_set(combined, bit) {
        'X'
    } else {
        '.'
    }
}

/// The character shown for cell `bit`: the letter of the last piece of
/// `pieces` that covers it, or `blank` where none does.
pub open spec fn cell_char(pieces: Seq<BitBoard>, bit: u64, blank: char) -> char
    decreases pieces.len(),
{
    if pieces.len() == 0 {
        blank
    } else if cell_set(pieces.last().0, bit) {
        piece_letter(pieces.len() - 1)
    } else {
        cell_char(pieces.drop_last(), bit, blank)
    }
}

/// Line `row` of the printed board, counted from the top: its eight cells,
/// from bit `63 - 8 * row` down, each followed by a space.
pub open spec fn row_text(pieces: Seq<BitBoard>, combined: u64, row: int) -> Seq<char> {
    Seq::new(
        16,
        |q: int|
            if q % 2 == 1 {
                ' '
            } else {
                let bit = (63 - (8 * row + q / 2)) as u64;
                cell_char(pieces, bit, blank_char(combined, bit))
            },
    )
}

/// The first `n` lines of the printed board, joined by line breaks.
pub open spec fn grid_text(pieces: Seq<BitBoard>, combined: u64, n: nat) -> Seq<char>
    decreases n,
{
    if n == 0 {
        seq![]
    } else if n == 1 {
        row_text(pieces, combined, 0)
    } else {
        grid_text(pieces, combined, (n - 1) as nat) + seq!['\n'] + row_text(
            pieces,
            combined,
            n - 1,
        )
    }
}

fn cell_char_of(pieces: &[BitBoard], count: usize, bit: u64, combined: u64) -> (r: char)
    requires
        bit < 64,
        count <= pieces@.len(),
        count <= 26,
    ensures
        r == cell_char(pieces@.take(count as int), bit, blank_char(combined, bit)),
{
    proof {
        lemma_cell_set_by_mask(combined, bit);
    }
    let blank = if combined & (1u64 << bit) != 0 {
        'X'
    } else {
        '.'
    };
    let mut c = blank;
    let mut i: usize = 0;
    assert(pieces@.take(0) =~= Seq::<BitBoard>::empty());
    while i < count
        invariant
            bit < 64,
            i <= count,
            count <= pieces@.len(),
            count <= 26,
            blank == blank_char(combined, bit),
            c == cell_char(pieces@.take(i as int), bit, blank),
        decreases count - i,
    {
        proof {
            lemma_cell_set_by_mask(pieces@[i as int].0, bit);
            assert(pieces@.take(i + 1).drop_last() =~= pieces@.take(i as int));
        }
        if pieces[i].0 & (1u64 << bit) != 0 {
            c = (65u8 + i as u8) as char;
        }
        i += 1;
    }
    c
}

/// The board as text, eight lines from bit 63 down: each cell shows the letter
/// of the last of the first `count` pieces that covers it, else `X` where
/// `combined` holds it and `.` elsewhere.
fn render(pieces: &[BitBoard], count: usize, combined: u64) -> (r: String)
    requires
        count <= pieces@.len(),
        count <= 26,
    ensures
        r@ == grid_text(pieces@.take(count as int), combined, 8),
{
    let ghost ps = pieces@.take(count as int);
    let mut s = String::new();
    let mut row: u64 = 0;
    while row < 8
        invariant
            row <= 8,
            count <= pieces@.len(),
            count <= 26,
            ps == pieces@.take(count as int),
            s@ == grid_text(ps, combined, row as nat),
        decreases 8 - row,
    {
        if row > 0 {
            push_char(&mut s, '\n');
        }
        let ghost prefix = s@;
        let mut col: u64 = 0;
        assert(s@ =~= prefix + row_text(ps, combined, row as int).take(0));
        while col < 8
            invariant
                row < 8,
                col <= 8,
                count <= pieces@.len(),
                count <= 26,
                ps == pieces@.take(count as int),
                s@ == prefix + row_text(ps, combined, row as int).take(2 * col),
            decreases 8 - col,
        {
            let c = cell_char_of(pieces, count, 63 - (8 * row + col), combined);
            push_char(&mut s, c);
            push_char(&mut s, ' ');
            assert(s@ =~= prefix + row_text(ps, combined, row as int).take(2 * col + 2));
            col += 1;
        }
        assert(row_text(ps, combined, row as int).take(16) =~= row_text(ps, combined, row as int));
        row += 1;
    }
    s
}

impl Solution {
    /// The solution as text: eight lines from bit 63 down, each cell showing
    /// the letter of the piece that covers it (`A` for the first) or `.`.
    pub fn to_string(&self) -> (r: String)
        requires
            self.0@.len() <= 26,
        ensures
            r@ == grid_text(self.0@, 0, 8),
    {
        let r = render(self.0.as_slice(), self.0.len(), 0);
        assert(self.0@.take(self.0@.len() as int) =~= self.0@);
        r
    }
}

proof fn lemma_fitting_push<const N: usize>(b: Board<N>, ms: Seq<u64>, m: u64)
    ensures
        b.fitting_placements(ms.push(m)) == b.fitting_placements(ms) + if b.fits(m) {
            seq![b.with_piece(m)]
        } else {
            seq![]
        },
{
    assert(ms.push(m).drop_last() =~= ms);
}

proof fn lemma_fitting_count<const N: usize>(b: Board<N>, ms: Seq<u64>)
    requires
        b.piece_count < N,
    ensures
        forall|i: int|
            0 <= i < b.fitting_placements(ms).len() ==> #[trigger] b.fitting_placements(
                ms,
            )[i].piece_count == b.piece_count + 1,
    decreases ms.len(),
{
    if ms.len() > 0 {
        lemma_fitting_count(b, ms.drop_last());
        let prev = b.fitting_placements(ms.drop_last());
        assert forall|i: int| 0 <= i < b.fitting_placements(ms).len() implies #[trigger] b.fitting_placements(
            ms,
        )[i].piece_count == b.piece_count + 1 by {
            if i < prev.len() {
                assert(b.fitting_placements(ms)[i] == prev[i]);
            }
        }
    }
}

pub proof fn lemma_visit_append<const N: usize>(
    a: Seq<Board<N>>,
    c: Seq<Board<N>>,
    pieces: Seq<Seq<BitPiece>>,
    depth: nat,
)
    ensures
        visit_order(a + c, pieces, depth) == visit_order(c, pieces, depth) + visit_order(
            a,
            pieces,
            depth,
        ),
    decreases c.len(),
{
    if c.len() == 0 {
        assert(a + c =~= a);
        assert(visit_order(c, pieces, depth) + visit_order(a, pieces, depth) =~= visit_order(
            a,
            pieces,
            depth,
        ));
    } else {
        assert((a + c).drop_last() =~= a + c.drop_last());
        assert((a + c).last() == c.last());
        lemma_visit_append(a, c.drop_last(), pieces, depth);
        let top = c.last();
        if top.is_complete() || depth == 0 || top.piece_count >= pieces.len() {
            assert(visit_order(a + c, pieces, depth) =~= visit_order(c, pieces, depth)
                + visit_order(a, pieces, depth));
        } else {
            assert(visit_order(a + c, pieces, depth) =~= visit_order(c, pieces, depth)
                + visit_order(a, pieces, depth));
        }
    }
}

/// A deeper limit changes nothing once it lets every board be completed.
proof fn lemma_visit_depth<const N: usize>(s: Seq<Board<N>>, pieces: Seq<Seq<BitPiece>>, depth: nat)
    requires
        forall|i: int| 0 <= i < s.len() ==> #[trigger] s[i].piece_count + depth >= N,
    ensures
        visit_order(s, pieces, depth) == visit_order(s, pieces, depth + 1),
    decreases depth, s.len(),
{
    if s.len() > 0 {
        let top = s.last();
        lemma_visit_depth(s.drop_last(), pieces, depth);
        if !(top.is_complete() || top.piece_count >= pieces.len()) {
            let ch = top.children(pieces[top.piece_count as int]);
            lemma_fitting_count(top, candidate_placements(pieces[top.piece_count as int]));
            lemma_visit_depth(ch, pieces, (depth - 1) as nat);
        }
    }
}

pub proof fn lemma_complete_append<const N: usize>(a: Seq<Board<N>>, c: Seq<Board<N>>)
    ensures
        complete_solutions(a + c) == complete_solutions(a) + complete_solutions(c),
    decreases c.len(),
{
    if c.len() == 0 {
        assert(a + c =~= a);
        assert(complete_solutions(a) + complete_solutions(c) =~= complete_solutions(a));
    } else {
        assert((a + c).drop_last() =~= a + c.drop_last());
        lemma_complete_append(a, c.drop_last());
        assert(complete_solutions(a + c) =~= complete_solutions(a) + complete_solutions(c));
    }
}

impl<const N: usize> Board<N> {
    /// An empty board: the cells of `base` and the cells that `solved` leaves
    /// clear are occupied, and no piece is placed.
    pub fn new(base: BitBoard, solved: BitBoard) -> (r: Board<N>)
        ensures
            r == Board::<N>::starting(base.0 | !solved.0),
    {
        let r = Board {
            pieces: [BitBoard::new(0);N],
            combined: BitBoard(base.0 | !solved.0),
            piece_count: 0,
        };
        assert(r.pieces =~= Board::<N>::starting(base.0 | !solved.0).pieces);
        r
    }

    /// The cells of each piece slot, placed or not.
    pub fn pieces(&self) -> (r: &[BitBoard])
        ensures
            r@ == self.pieces@,
    {
        array_as_slice(&self.pieces)
    }

    /// Place `piece` at column `x` of row `y`, or fail where it would cover an
    /// occupied cell.
    pub fn place_piece(&self, piece: BitPiece, x: usize, y: usize) -> (r: Result<Board<N>, &'static str>)
        requires
            self.piece_count < N,
            8 * y + x < 64,
        ensures
            self.fits(placed_cells(piece.0, x as u64, y as u64)) ==> r == Ok::<Board<N>, &'static str>(
                self.with_piece(placed_cells(piece.0, x as u64, y as u64)),
            ),
            !self.fits(placed_cells(piece.0, x as u64, y as u64)) ==> r.is_err(),
    {
        let piece_bb = piece.to_bitboard(x, y);
        if !piece_bb.intersects(self.combined) {
            Ok(self.add_piece(piece_bb))
        } else {
            Err("Cannot place piece")
        }
    }

    fn add_piece(&self, piece_bb: BitBoard) -> (r: Board<N>)
        requires
            self.piece_count < N,
        ensures
            r == self.with_piece(piece_bb.0),
    {
        let mut new_board = *self;
        new_board.pieces[self.piece_count] = piece_bb;
        new_board.piece_count = self.piece_count + 1;
        new_board.combined = BitBoard(self.combined.0 | piece_bb.0);
        assert(new_board.pieces =~= self.with_piece(piece_bb.0).pieces);
        new_board
    }

    /// Every solution that completes this board with `pieces`, in the order of
    /// a depth-first search; with `only_first`, the first of them alone.
    pub fn solve(&self, pieces: &[Piece], only_first: bool) -> (r: Vec<Solution>)
        requires
            self.wf(),
            pieces@.len() == N,
        ensures
            solution_cells(r@) == search_result(*self, orientations(pieces@), only_first),
    {
        let ghost ps = orientations(pieces@);
        let mut dfs: Vec<Board<N>> = vec![*self];
        let mut solutions: Vec<Solution> = Vec::new();
        let ghost all = visit_order(seq![*self], ps, N as nat);
        let ghost mut visited: Seq<Board<N>> = seq![];
        assert(dfs@ =~= seq![*self]);
        assert(visited + visit_order(dfs@, ps, N as nat) =~= all);
        while dfs.len() > 0
            invariant_except_break
                only_first ==> solutions@.len() == 0,
            invariant
                pieces@.len() == N,
                ps == orientations(pieces@),
                visited + visit_order(dfs@, ps, N as nat) == all,
                solution_cells(solutions@) == complete_solutions(visited),
                forall|i: int| 0 <= i < dfs@.len() ==> (#[trigger] dfs@[i]).wf(),
                all == visit_order(seq![*self], ps, N as nat),
            ensures
                (dfs@.len() == 0 && (only_first ==> solutions@.len() == 0)) || (only_first
                    && solutions@.len() == 1),
            decreases visit_order(dfs@, ps, N as nat).len(),
        {
            let ghost before = dfs@;
            let board = dfs.pop().unwrap();
            proof {
                assert(before =~= dfs@.push(board));
                assert(before.drop_last() =~= dfs@);
            }
            proof {
                lemma_complete_append(visited, seq![board]);
                assert(seq![board].drop_last() =~= Seq::<Board<N>>::empty());
                assert(visited.push(board) =~= visited + seq![board]);
                assert(seq![board].last() == board);
                assert(complete_solutions(Seq::<Board<N>>::empty()) =~= Seq::<Seq<BitBoard>>::empty());
            }
            if board.piece_count == N {
                proof {
                    assert(complete_solutions(seq![board]) =~= seq![board.pieces@]);
                    assert(visited + visit_order(before, ps, N as nat) =~= visited.push(board)
                        + visit_order(dfs@, ps, N as nat));
                    visited = visited.push(board);
                }
                let cells = slice_to_vec(array_as_slice(&board.pieces));
                let ghost old_solutions = solutions@;
                solutions.push(Solution(cells));
                proof {
                    assert(solution_cells(solutions@) =~= solution_cells(old_solutions).push(
                        board.pieces@,
                    ));
                }
                if only_first {
                    proof {
                        lemma_complete_append(visited, visit_order(dfs@, ps, N as nat));
                    }
                    break;
                }
            } else {
                let ghost rest = dfs@;
                board.append_valid_placements(&pieces[board.piece_count], &mut dfs);
                proof {
                    let ch = board.children(ps[board.piece_count as int]);
                    lemma_fitting_count(
                        board,
                        candidate_placements(ps[board.piece_count as int]),
                    );
                    lemma_visit_depth(ch, ps, (N - 1) as nat);
                    lemma_visit_append(rest, ch, ps, N as nat);
                    assert(complete_solutions(seq![board]) =~= Seq::<Seq<BitBoard>>::empty());
                    assert(visited + visit_order(before, ps, N as nat) =~= visited.push(board)
                        + visit_order(dfs@, ps, N as nat));
                    visited = visited.push(board);
                    assert forall|i: int| 0 <= i < dfs@.len() implies (#[trigger] dfs@[i]).wf() by {
                        if i >= rest.len() {
                            assert(dfs@[i] == ch[i - rest.len()]);
                        } else {
                            assert(dfs@[i] == before[i]);
                        }
                    }
                }
            }
        }
        proof {
            if dfs@.len() == 0 {
                assert(visited =~= all);
            } else {
                let later = complete_solutions(visit_order(dfs@, ps, N as nat));
                lemma_complete_append(visited, visit_order(dfs@, ps, N as nat));
                assert((solution_cells(solutions@) + later).take(1) =~= solution_cells(solutions@));
            }
        }
        solutions
    }

    /// Push onto `buf` each board that follows from placing `piece` where it
    /// fits: orientation by orientation, then column by column, then row by
    /// row.
    pub fn append_valid_placements(&self, piece: &Piece, buf: &mut Vec<Board<N>>)
        requires
            self.piece_count < N,
        ensures
            final(buf)@ == old(buf)@ + self.children(piece.variations@),
    {
        let ghost start = buf@;
        let vs = &piece.variations;
        let mut vi: usize = 0;
        assert(vs@.take(0) =~= Seq::<BitPiece>::empty());
        assert(buf@ =~= start + self.fitting_placements(candidate_placements(vs@.take(0))));
        while vi < vs.len()
            invariant
                self.piece_count < N,
                vi <= vs@.len(),
                buf@ == start + self.fitting_placements(candidate_placements(vs@.take(vi as int))),
            decreases vs@.len() - vi,
        {
            let variation = vs[vi];
            let w = variation.width();
            let h = variation.height();
            let ghost prefix = candidate_placements(vs@.take(vi as int));
            let ghost mut seen: Seq<u64> = prefix;
            let mut x: usize = 0;
            assert(seen =~= prefix + orientation_placements(variation.0, 0));
            while x < 9 - w
                invariant
                    self.piece_count < N,
                    w == shape_width(variation.0),
                    h == shape_height(variation.0),
                    x <= 9 - w,
                    seen == prefix + orientation_placements(variation.0, x as nat),
                    buf@ == start + self.fitting_placements(seen),
                decreases 9 - w - x,
            {
                let mut y: usize = 0;
                assert(column_placements(variation.0, x as nat, 0) =~= Seq::<u64>::empty());
                assert(seen =~= prefix + orientation_placements(variation.0, x as nat)
                    + column_placements(variation.0, x as nat, 0));
                while y < 9 - h
                    invariant
                        self.piece_count < N,
                        w == shape_width(variation.0),
                        h == shape_height(variation.0),
                        x < 9 - w,
                        y <= 9 - h,
                        seen == prefix + orientation_placements(variation.0, x as nat)
                            + column_placements(variation.0, x as nat, y as nat),
                        buf@ == start + self.fitting_placements(seen),
                    decreases 9 - h - y,
                {
                    let piece_bb = variation.to_bitboard(x, y);
                    proof {
                        lemma_fitting_push(*self, seen, piece_bb.0);
                        assert(column_placements(variation.0, x as nat, (y + 1) as nat)
                            =~= column_placements(variation.0, x as nat, y as nat).push(piece_bb.0));
                        seen = seen.push(piece_bb.0);
                    }
                    if !piece_bb.intersects(self.combined) {
                        let new_board = self.add_piece(piece_bb);
                        buf.push(new_board);
                    }
                    proof {
                        assert(buf@ =~= start + self.fitting_placements(seen));
                    }
                    y += 1;
                }
                proof {
                    assert(seen =~= prefix + orientation_placements(variation.0, (x + 1) as nat));
                }
                x += 1;
            }
            proof {
                assert(vs@.take(vi + 1).drop_last() =~= vs@.take(vi as int));
                assert(seen == candidate_placements(vs@.take(vi + 1)));
            }
            vi += 1;
        }
        assert(vs@.take(vs@.len() as int) =~= vs@);
    }

    /// The board as text: eight lines from bit 63 down, each cell showing the
    /// letter of the placed piece that covers it (`A` for the first), `X` for
    /// another occupied cell, or `.`.
    pub fn to_string(&self) -> (r: String)
        requires
            self.wf(),
            N <= 26,
        ensures
            r@ == grid_text(self.pieces@.take(self.piece_count as int), self.combined.0, 8),
    {
        render(array_as_slice(&self.pieces), self.piece_count, self.combined.0)
    }

    /// All pieces are placed.
    pub fn is_solved(&self) -> (r: bool)
        ensures
            r == self.is_complete(),
    {
        self.piece_count >= N
    }
}

} // verus!
