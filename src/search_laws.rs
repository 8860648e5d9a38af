//! Laws of the placement search: what every reported solution is.
use vstd::prelude::*;

use crate::bitboard::BitBoard;
use crate::bitpiece::{placed_cells, shape_height, shape_width, BitPiece};
use crate::board::{
    all_solutions, candidate_placements, column_placements, complete_solutions,
    lemma_complete_append, lemma_visit_append, orientation_placements, search_result, visit_order,
    Board,
};

verus! {

broadcast use vstd::array::group_array_axioms;

/// `m` is the cell mask of one orientation of `vs` placed on the board, with
/// its bounding box inside the board.
pub open spec fn is_placement_of(m: u64, vs: Seq<BitPiece>) -> bool {
    exists|i: int, x: u64, y: u64|
        0 <= i < vs.len() && x < 9 - shape_width(vs[i].0) && y < 9 - shape_height(vs[i].0) && m
            == #[trigger] placed_cells(vs[i].0, x, y)
}

/// `sol` completes `root` with `pieces`: it has `N` piece masks; those already
/// on `root` are kept; each later one is a placement of its piece on cells that
/// `root` leaves free; and no two later ones share a cell.
pub open spec fn is_completion<const N: usize>(
    root: Board<N>,
    pieces: Seq<Seq<BitPiece>>,
    sol: Seq<BitBoard>,
) -> bool {
    &&& sol.len() == N
    &&& forall|k: int| 0 <= k < root.piece_count ==> #[trigger] sol[k] == root.pieces[k]
    &&& forall|k: int|
        root.piece_count <= k < N ==> is_placement_of(#[trigger] sol[k].0, pieces[k]) && sol[k].0
            & root.combined.0 == 0
    &&& forall|k: int, l: int|
        root.piece_count <= k < N && root.piece_count <= l < N && k != l ==> #[trigger] sol[k].0
            & #[trigger] sol[l].0 == 0
}

/// `b` was reached from `root` by placing pieces of `pieces` on free cells.
pub open spec fn extends<const N: usize>(
    root: Board<N>,
    pieces: Seq<Seq<BitPiece>>,
    b: Board<N>,
) -> bool {
    &&& root.piece_count <= b.piece_count <= N
    &&& forall|k: int| 0 <= k < root.piece_count ==> #[trigger] b.pieces[k] == root.pieces[k]
    &&& root.combined.0 & !b.combined.0 == 0
    &&& forall|k: int|
        root.piece_count <= k < b.piece_count ==> is_placement_of(#[trigger] b.pieces[k].0, pieces[k])
            && b.pieces[k].0 & root.combined.0 == 0 && b.pieces[k].0 & !b.combined.0 == 0
    &&& forall|k: int, l: int|
        root.piece_count <= k < b.piece_count && root.piece_count <= l < b.piece_count && k != l
            ==> #[trigger] b.pieces[k].0 & #[trigger] b.pieces[l].0 == 0
}

proof fn lemma_new_piece_cells(r: u64, c: u64, m: u64, p: u64)
    requires
        r & !c == 0,
        m & c == 0,
        p & !c == 0,
    ensures
        r & !(c | m) == 0,
        m & r == 0,
        m & !(c | m) == 0,
        p & !(c | m) == 0,
        p & m == 0,
        m & p == 0,
{
    assert(r & !(c | m) == 0 && m & r == 0 && m & !(c | m) == 0 && p & !(c | m) == 0 && p & m == 0
        && m & p == 0) by (bit_vector)
        requires
            r & !c == 0,
            m & c == 0,
            p & !c == 0,
    ;
}

proof fn lemma_nothing_outside(c: u64)
    ensures
        c & !c == 0,
{
    assert(c & !c == 0) by (bit_vector);
}

proof fn lemma_candidates_are_placements(vs: Seq<BitPiece>)
    ensures
        forall|j: int|
            0 <= j < candidate_placements(vs).len() ==> is_placement_of(
                #[trigger] candidate_placements(vs)[j],
                vs,
            ),
    decreases vs.len(),
{
    if vs.len() > 0 {
        let init = vs.drop_last();
        let v = vs.last().0;
        let w = shape_width(v);
        let h = shape_height(v);
        lemma_candidates_are_placements(init);
        lemma_orientation_placements(v, (9 - w) as nat);
        let first = candidate_placements(init);
        assert forall|j: int| 0 <= j < candidate_placements(vs).len() implies is_placement_of(
            #[trigger] candidate_placements(vs)[j],
            vs,
        ) by {
            if j < first.len() {
                let m = first[j];
                assert(candidate_placements(vs)[j] == m);
                let (i, x, y) = choose|i: int, x: u64, y: u64|
                    0 <= i < init.len() && x < 9 - shape_width(init[i].0) && y < 9 - shape_height(
                        init[i].0,
                    ) && m == #[trigger] placed_cells(init[i].0, x, y);
                assert(vs[i] == init[i]);
                assert(m == placed_cells(vs[i].0, x, y));
            } else {
                let m = candidate_placements(vs)[j];
                let one = seq![BitPiece(v)];
                assert(m == orientation_placements(v, (9 - w) as nat)[j - first.len()]);
                assert(is_placement_of(m, one));
                let (i, x, y) = choose|i: int, x: u64, y: u64|
                    0 <= i < one.len() && x < 9 - shape_width(one[i].0) && y < 9 - shape_height(
                        one[i].0,
                    ) && m == #[trigger] placed_cells(one[i].0, x, y);
                assert(m == placed_cells(vs[vs.len() - 1].0, x, y));
            }
        }
    }
}

proof fn lemma_orientation_placements(v: u32, nx: nat)
    requires
        nx <= 9 - shape_width(v),
    ensures
        forall|j: int|
            0 <= j < orientation_placements(v, nx).len() ==> is_placement_of(
                #[trigger] orientation_placements(v, nx)[j],
                seq![BitPiece(v)],
            ),
    decreases nx,
{
    if nx > 0 {
        lemma_orientation_placements(v, (nx - 1) as nat);
        let first = orientation_placements(v, (nx - 1) as nat);
        let col = column_placements(v, (nx - 1) as nat, (9 - shape_height(v)) as nat);
        let one = seq![BitPiece(v)];
        assert forall|j: int| 0 <= j < orientation_placements(v, nx).len() implies is_placement_of(
            #[trigger] orientation_placements(v, nx)[j],
            one,
        ) by {
            assert(orientation_placements(v, nx) == first + col);
            if j < first.len() {
                assert(orientation_placements(v, nx)[j] == first[j]);
                assert(is_placement_of(first[j], one));
            } else {
                let x = (nx - 1) as u64;
                let y = (j - first.len()) as u64;
                assert(orientation_placements(v, nx)[j] == col[j - first.len()]);
                assert(col[j - first.len()] == placed_cells(v, x, y));
                assert(one[0].0 == v);
                assert(orientation_placements(v, nx)[j] == placed_cells(one[0].0, x, y));
            }
        }
    } else {
        assert(orientation_placements(v, nx) =~= Seq::<u64>::empty());
    }
}

proof fn lemma_fitting_extend<const N: usize>(
    root: Board<N>,
    pieces: Seq<Seq<BitPiece>>,
    b: Board<N>,
    ms: Seq<u64>,
)
    requires
        extends(root, pieces, b),
        b.piece_count < N,
        forall|j: int| 0 <= j < ms.len() ==> is_placement_of(#[trigger] ms[j], pieces[b.piece_count as int]),
    ensures
        forall|j: int|
            0 <= j < b.fitting_placements(ms).len() ==> extends(
                root,
                pieces,
                #[trigger] b.fitting_placements(ms)[j],
            ),
    decreases ms.len(),
{
    if ms.len() > 0 {
        let init = ms.drop_last();
        let m = ms.last();
        assert forall|j: int| 0 <= j < init.len() implies is_placement_of(
            #[trigger] init[j],
            pieces[b.piece_count as int],
        ) by {
            assert(init[j] == ms[j]);
        }
        lemma_fitting_extend(root, pieces, b, init);
        let first = b.fitting_placements(init);
        if b.fits(m) {
            let c = b.with_piece(m);
            assert(is_placement_of(ms[ms.len() - 1], pieces[b.piece_count as int]));
            assert(c.pieces@ == b.pieces@.update(b.piece_count as int, BitBoard(m)));
            lemma_new_piece_cells(root.combined.0, b.combined.0, m, root.combined.0);
            assert forall|k: int|
                root.piece_count <= k < c.piece_count implies is_placement_of(
                #[trigger] c.pieces[k].0,
                pieces[k],
            ) && c.pieces[k].0 & root.combined.0 == 0 && c.pieces[k].0 & !c.combined.0 == 0 by {
                if k < b.piece_count {
                    lemma_new_piece_cells(root.combined.0, b.combined.0, m, b.pieces[k].0);
                }
            }
            assert forall|k: int, l: int|
                root.piece_count <= k < c.piece_count && root.piece_count <= l < c.piece_count
                    && k != l implies #[trigger] c.pieces[k].0 & #[trigger] c.pieces[l].0 == 0 by {
                if k == b.piece_count {
                    lemma_new_piece_cells(root.combined.0, b.combined.0, m, b.pieces[l].0);
                } else if l == b.piece_count {
                    lemma_new_piece_cells(root.combined.0, b.combined.0, m, b.pieces[k].0);
                }
            }
            assert(extends(root, pieces, c));
        }
        assert forall|j: int| 0 <= j < b.fitting_placements(ms).len() implies extends(
            root,
            pieces,
            #[trigger] b.fitting_placements(ms)[j],
        ) by {
            if j < first.len() {
                assert(b.fitting_placements(ms)[j] == first[j]);
            }
        }
    }
}

proof fn lemma_visits_extend<const N: usize>(
    root: Board<N>,
    pieces: Seq<Seq<BitPiece>>,
    stack: Seq<Board<N>>,
    depth: nat,
)
    requires
        forall|i: int| 0 <= i < stack.len() ==> extends(root, pieces, #[trigger] stack[i]),
    ensures
        forall|i: int|
            0 <= i < visit_order(stack, pieces, depth).len() ==> extends(
                root,
                pieces,
                #[trigger] visit_order(stack, pieces, depth)[i],
            ),
    decreases depth, stack.len(),
{
    if stack.len() > 0 {
        let top = stack.last();
        let rest = stack.drop_last();
        assert forall|i: int| 0 <= i < rest.len() implies extends(root, pieces, #[trigger] rest[i]) by {
            assert(rest[i] == stack[i]);
        }
        lemma_visits_extend(root, pieces, rest, depth);
        let below = visit_order(rest, pieces, depth);
        if top.is_complete() || depth == 0 || top.piece_count >= pieces.len() {
            assert forall|i: int| 0 <= i < visit_order(stack, pieces, depth).len() implies extends(
                root,
                pieces,
                #[trigger] visit_order(stack, pieces, depth)[i],
            ) by {
                if i > 0 {
                    assert(visit_order(stack, pieces, depth)[i] == below[i - 1]);
                }
            }
        } else {
            let vs = pieces[top.piece_count as int];
            let ch = top.children(vs);
            lemma_candidates_are_placements(vs);
            lemma_fitting_extend(root, pieces, top, candidate_placements(vs));
            lemma_visits_extend(root, pieces, ch, (depth - 1) as nat);
            let mid = visit_order(ch, pieces, (depth - 1) as nat);
            assert forall|i: int| 0 <= i < visit_order(stack, pieces, depth).len() implies extends(
                root,
                pieces,
                #[trigger] visit_order(stack, pieces, depth)[i],
            ) by {
                if i > 0 && i <= mid.len() {
                    assert(visit_order(stack, pieces, depth)[i] == mid[i - 1]);
                } else if i > mid.len() {
                    assert(visit_order(stack, pieces, depth)[i] == below[i - 1 - mid.len()]);
                }
            }
        }
    }
}

/// `sol` is the piece list of a complete board of `boards`.
pub open spec fn comes_from_complete<const N: usize>(boards: Seq<Board<N>>, sol: Seq<BitBoard>) -> bool {
    exists|j: int| 0 <= j < boards.len() && (#[trigger] boards[j]).is_complete() && boards[j].pieces@ == sol
}

proof fn lemma_complete_from<const N: usize>(boards: Seq<Board<N>>)
    ensures
        forall|i: int|
            0 <= i < complete_solutions(boards).len() ==> comes_from_complete(
                boards,
                #[trigger] complete_solutions(boards)[i],
            ),
    decreases boards.len(),
{
    if boards.len() > 0 {
        let init = boards.drop_last();
        lemma_complete_from(init);
        let first = complete_solutions(init);
        assert forall|i: int| 0 <= i < complete_solutions(boards).len() implies comes_from_complete(
            boards,
            #[trigger] complete_solutions(boards)[i],
        ) by {
            if i < first.len() {
                assert(complete_solutions(boards)[i] == first[i]);
                assert(comes_from_complete(init, first[i]));
                let j = choose|j: int|
                    0 <= j < init.len() && (#[trigger] init[j]).is_complete() && init[j].pieces@
                        == first[i];
                assert(boards[j] == init[j]);
                assert(0 <= j < boards.len() && boards[j].is_complete()
                    && complete_solutions(boards)[i] == boards[j].pieces@);
            } else {
                let j = boards.len() - 1;
                assert(boards[j] == boards.last());
                assert(boards.last().is_complete());
                assert(complete_solutions(boards)[i] == boards[j].pieces@);
            }
        }
    } else {
        assert(complete_solutions(boards) =~= Seq::<Seq<BitBoard>>::empty());
    }
}

/// Every solution that the search reports completes the starting board: it
/// holds one mask per piece, each a placement of that piece's orientation on
/// cells the board left free, and no two of them share a cell.
pub proof fn lemma_solutions_complete_the_board<const N: usize>(
    root: Board<N>,
    pieces: Seq<Seq<BitPiece>>,
    only_first: bool,
)
    requires
        root.wf(),
    ensures
        forall|i: int|
            0 <= i < search_result(root, pieces, only_first).len() ==> is_completion(
                root,
                pieces,
                #[trigger] search_result(root, pieces, only_first)[i],
            ),
{
    let visits = visit_order(seq![root], pieces, N as nat);
    lemma_nothing_outside(root.combined.0);
    assert(extends(root, pieces, root));
    assert forall|i: int| 0 <= i < seq![root].len() implies extends(root, pieces, #[trigger] seq![root][i]) by {
        assert(seq![root][i] == root);
    }
    lemma_visits_extend(root, pieces, seq![root], N as nat);
    lemma_complete_from(visits);
    let all = all_solutions(root, pieces);
    assert forall|i: int| 0 <= i < all.len() implies is_completion(root, pieces, #[trigger] all[i]) by {
        assert(comes_from_complete(visits, all[i]));
        let j = choose|j: int|
            0 <= j < visits.len() && (#[trigger] visits[j]).is_complete() && visits[j].pieces@
                == all[i];
        let b = visits[j];
        assert(extends(root, pieces, b));
        assert(b.piece_count == N);
    }
    let r = search_result(root, pieces, only_first);
    assert forall|i: int| 0 <= i < r.len() implies is_completion(root, pieces, #[trigger] r[i]) by {
        assert(r[i] == all[i]);
    }
}

proof fn lemma_placement_is_candidate(vs: Seq<BitPiece>, i: int, x: u64, y: u64)
    requires
        0 <= i < vs.len(),
        x < 9 - shape_width(vs[i].0),
        y < 9 - shape_height(vs[i].0),
    ensures
        candidate_placements(vs).contains(placed_cells(vs[i].0, x, y)),
    decreases vs.len(),
{
    let init = vs.drop_last();
    let v = vs.last().0;
    let first = candidate_placements(init);
    let ori = orientation_placements(v, (9 - shape_width(v)) as nat);
    assert(candidate_placements(vs) == first + ori);
    if i < vs.len() - 1 {
        assert(init[i] == vs[i]);
        lemma_placement_is_candidate(init, i, x, y);
        let j = choose|j: int| 0 <= j < first.len() && first[j] == placed_cells(vs[i].0, x, y);
        assert((first + ori)[j] == first[j]);
    } else {
        lemma_orientation_contains(v, (9 - shape_width(v)) as nat, x, y);
        let j = choose|j: int| 0 <= j < ori.len() && ori[j] == placed_cells(v, x, y);
        assert((first + ori)[first.len() + j] == ori[j]);
    }
}

proof fn lemma_orientation_contains(v: u32, nx: nat, x: u64, y: u64)
    requires
        x < nx,
        y < 9 - shape_height(v),
    ensures
        orientation_placements(v, nx).contains(placed_cells(v, x, y)),
    decreases nx,
{
    let first = orientation_placements(v, (nx - 1) as nat);
    let col = column_placements(v, (nx - 1) as nat, (9 - shape_height(v)) as nat);
    assert(orientation_placements(v, nx) == first + col);
    if x < nx - 1 {
        lemma_orientation_contains(v, (nx - 1) as nat, x, y);
        let j = choose|j: int| 0 <= j < first.len() && first[j] == placed_cells(v, x, y);
        assert((first + col)[j] == first[j]);
    } else {
        assert(col[y as int] == placed_cells(v, x, y));
        assert((first + col)[first.len() + y] == col[y as int]);
    }
}

proof fn lemma_fitting_contains<const N: usize>(b: Board<N>, ms: Seq<u64>, m: u64)
    requires
        ms.contains(m),
        b.fits(m),
    ensures
        b.fitting_placements(ms).contains(b.with_piece(m)),
    decreases ms.len(),
{
    let init = ms.drop_last();
    let first = b.fitting_placements(init);
    if ms.last() == m {
        let last = b.fitting_placements(ms).len() - 1;
        assert(b.fitting_placements(ms)[last] == b.with_piece(m));
    } else {
        let j = choose|j: int| 0 <= j < ms.len() && ms[j] == m;
        assert(init[j] == m);
        lemma_fitting_contains(b, init, m);
        let k = choose|k: int| 0 <= k < first.len() && first[k] == b.with_piece(m);
        assert(b.fitting_placements(ms)[k] == first[k]);
    }
}

/// The solutions found from a stack include those found from any one of its
/// boards.
proof fn lemma_found_from_member<const N: usize>(
    s: Seq<Board<N>>,
    i: int,
    pieces: Seq<Seq<BitPiece>>,
    depth: nat,
    sol: Seq<BitBoard>,
)
    requires
        0 <= i < s.len(),
        complete_solutions(visit_order(seq![s[i]], pieces, depth)).contains(sol),
    ensures
        complete_solutions(visit_order(s, pieces, depth)).contains(sol),
{
    let before = s.take(i);
    let after = s.skip(i + 1);
    assert(s =~= before + seq![s[i]] + after);
    lemma_visit_append(before + seq![s[i]], after, pieces, depth);
    lemma_visit_append(before, seq![s[i]], pieces, depth);
    let va = visit_order(after, pieces, depth);
    let vi = visit_order(seq![s[i]], pieces, depth);
    let vb = visit_order(before, pieces, depth);
    assert(visit_order(s, pieces, depth) == va + (vi + vb));
    lemma_complete_append(va, vi + vb);
    lemma_complete_append(vi, vb);
    let found = complete_solutions(vi);
    let j = choose|j: int| 0 <= j < found.len() && found[j] == sol;
    let ca = complete_solutions(va);
    assert((ca + (found + complete_solutions(vb)))[ca.len() + j] == sol);
}

proof fn lemma_found_from<const N: usize>(
    b: Board<N>,
    pieces: Seq<Seq<BitPiece>>,
    depth: nat,
    sol: Seq<BitBoard>,
)
    requires
        b.piece_count <= N,
        b.piece_count + depth >= N,
        pieces.len() == N,
        sol.len() == N,
        forall|k: int| 0 <= k < b.piece_count ==> #[trigger] sol[k] == b.pieces[k],
        forall|k: int|
            b.piece_count <= k < N ==> is_placement_of(#[trigger] sol[k].0, pieces[k]) && sol[k].0
                & b.combined.0 == 0,
        forall|k: int, l: int|
            b.piece_count <= k < N && b.piece_count <= l < N && k != l ==> #[trigger] sol[k].0
                & #[trigger] sol[l].0 == 0,
    ensures
        complete_solutions(visit_order(seq![b], pieces, depth)).contains(sol),
    decreases N - b.piece_count,
{
    let one = seq![b];
    assert(one.last() == b);
    assert(one.drop_last() =~= Seq::<Board<N>>::empty());
    let empty = Seq::<Board<N>>::empty();
    assert(visit_order(empty, pieces, depth) =~= empty);
    if b.piece_count == N {
        assert(b.pieces@ =~= sol);
        assert(visit_order(one, pieces, depth) =~= seq![b]);
        assert(complete_solutions(seq![b]) =~= seq![b.pieces@]) by {
            assert(seq![b].drop_last() =~= empty);
            assert(complete_solutions(empty) =~= Seq::<Seq<BitBoard>>::empty());
        }
        assert(complete_solutions(visit_order(one, pieces, depth))[0] == sol);
    } else {
        let c_idx = b.piece_count as int;
        let vs = pieces[c_idx];
        let m = sol[c_idx].0;
        let (i, x, y) = choose|i: int, x: u64, y: u64|
            0 <= i < vs.len() && x < 9 - shape_width(vs[i].0) && y < 9 - shape_height(vs[i].0) && m
                == #[trigger] placed_cells(vs[i].0, x, y);
        lemma_placement_is_candidate(vs, i, x, y);
        lemma_fitting_contains(b, candidate_placements(vs), m);
        let c = b.with_piece(m);
        let ch = b.children(vs);
        let k = choose|k: int| 0 <= k < ch.len() && ch[k] == c;
        assert(c.pieces@ == b.pieces@.update(c_idx, BitBoard(m)));
        assert forall|k: int| 0 <= k < c.piece_count implies #[trigger] sol[k] == c.pieces[k] by {
            if k == c_idx {
                assert(sol[k] == BitBoard(sol[k].0));
            }
        }
        assert forall|k: int|
            c.piece_count <= k < N implies is_placement_of(#[trigger] sol[k].0, pieces[k])
            && sol[k].0 & c.combined.0 == 0 by {
            lemma_disjoint_union(sol[k].0, b.combined.0, m);
        }
        lemma_found_from(c, pieces, (depth - 1) as nat, sol);
        lemma_found_from_member(ch, k, pieces, (depth - 1) as nat, sol);
        let below = visit_order(ch, pieces, (depth - 1) as nat);
        assert(visit_order(one, pieces, depth) =~= seq![b] + below);
        lemma_complete_append(seq![b], below);
        let found = complete_solutions(below);
        let j = choose|j: int| 0 <= j < found.len() && found[j] == sol;
        assert(complete_solutions(seq![b]) =~= Seq::<Seq<BitBoard>>::empty()) by {
            assert(seq![b].drop_last() =~= empty);
            assert(complete_solutions(empty) =~= Seq::<Seq<BitBoard>>::empty());
        }
        assert(complete_solutions(visit_order(one, pieces, depth))[j] == sol);
    }
}

proof fn lemma_disjoint_union(p: u64, c: u64, m: u64)
    requires
        p & c == 0,
        p & m == 0,
    ensures
        p & (c | m) == 0,
{
    assert(p & (c | m) == 0) by (bit_vector)
        requires
            p & c == 0,
            p & m == 0,
    ;
}

/// Exhaustive search misses nothing: every completion of the starting board
/// is among the solutions it reports.
pub proof fn lemma_every_completion_is_found<const N: usize>(
    root: Board<N>,
    pieces: Seq<Seq<BitPiece>>,
    sol: Seq<BitBoard>,
)
    requires
        root.wf(),
        pieces.len() == N,
        is_completion(root, pieces, sol),
    ensures
        all_solutions(root, pieces).contains(sol),
{
    lemma_found_from(root, pieces, N as nat, sol);
}

/// The search is deterministic: the same board and pieces give the same
/// result, in particular the same first solution.
pub proof fn lemma_search_deterministic<const N: usize>(
    b1: Board<N>,
    b2: Board<N>,
    pieces1: Seq<Seq<BitPiece>>,
    pieces2: Seq<Seq<BitPiece>>,
    only_first: bool,
)
    requires
        b1 == b2,
        pieces1 == pieces2,
    ensures
        search_result(b1, pieces1, only_first) == search_result(b2, pieces2, only_first),
{
}

} // verus!
