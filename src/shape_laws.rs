//! Laws of the shape transforms: quarter turns, mirroring and alignment.
use vstd::prelude::*;

use crate::bitpiece::{
    align_shape, flip_shape, in_grid, is_shape, mirror_grid, placed_cells, rotate_shape, turn_grid,
};

verus! {

/// Half turn of the local grid, as the rows upside down and mirrored: cell
/// (x, y) goes to (3 - x, 3 - y).
pub open spec fn half_turn_grid(s: u32) -> u32 {
    mirror_grid(((s & 0xFF) << 24) | ((s & 0xFF00) << 8) | ((s >> 8) & 0xFF00) | (s >> 24))
}

proof fn lemma_turn_in_grid(x: u32)
    ensures
        in_grid(turn_grid(x)),
        in_grid(mirror_grid(x)),
{
    assert(in_grid(turn_grid(x))) by (bit_vector);
    assert(in_grid(mirror_grid(x))) by (bit_vector);
}

proof fn lemma_turn_twice(x: u32, t: u32)
    requires
        t == turn_grid(x),
    ensures
        turn_grid(t) == half_turn_grid(x),
{
    assert(turn_grid(t) == half_turn_grid(x)) by (bit_vector)
        requires
            t == turn_grid(x),
    ;
}

proof fn lemma_half_turn_twice(x: u32, h: u32)
    requires
        in_grid(x),
        h == half_turn_grid(x),
    ensures
        half_turn_grid(h) == x,
{
    assert(half_turn_grid(h) == x) by (bit_vector)
        requires
            in_grid(x),
            h == half_turn_grid(x),
    ;
}

proof fn lemma_mirror_twice(x: u32, m: u32)
    requires
        in_grid(x),
        m == mirror_grid(x),
    ensures
        mirror_grid(m) == x,
{
    assert(mirror_grid(m) == x) by (bit_vector)
        requires
            in_grid(x),
            m == mirror_grid(x),
    ;
}

/// Aligning before a quarter turn changes nothing once the result is aligned.
proof fn lemma_turn_aligned(x: u32, a: u32, t1: u32, t2: u32)
    requires
        in_grid(x),
        a == align_shape(x),
        t1 == turn_grid(a),
        t2 == turn_grid(x),
    ensures
        align_shape(t1) == align_shape(t2),
{
    assert(align_shape(t1) == align_shape(t2)) by (bit_vector)
        requires
            in_grid(x),
            a == align_shape(x),
            t1 == turn_grid(a),
            t2 == turn_grid(x),
    ;
}

/// Aligning before mirroring changes nothing once the result is aligned.
proof fn lemma_mirror_aligned(x: u32, a: u32, m1: u32, m2: u32)
    requires
        in_grid(x),
        a == align_shape(x),
        m1 == mirror_grid(a),
        m2 == mirror_grid(x),
    ensures
        align_shape(m1) == align_shape(m2),
{
    assert(align_shape(m1) == align_shape(m2)) by (bit_vector)
        requires
            in_grid(x),
            a == align_shape(x),
            m1 == mirror_grid(a),
            m2 == mirror_grid(x),
    ;
}

/// An aligned mask of the grid is left as it is by `align_shape`.
proof fn lemma_aligned_fixed(s: u32)
    requires
        is_shape(s),
    ensures
        align_shape(s) == s,
{
    assert(align_shape(s) == s) by (bit_vector)
        requires
            is_shape(s),
    ;
}

/// Four quarter turns bring every piece shape back to itself.
pub proof fn lemma_rotate_four_times(s: u32)
    requires
        is_shape(s),
    ensures
        rotate_shape(rotate_shape(rotate_shape(rotate_shape(s)))) == s,
{
    let t1 = turn_grid(s);
    let t2 = turn_grid(t1);
    let t3 = turn_grid(t2);
    let t4 = turn_grid(t3);
    lemma_turn_in_grid(s);
    lemma_turn_in_grid(t1);
    lemma_turn_in_grid(t2);
    let r1 = align_shape(t1);
    lemma_turn_aligned(t1, r1, turn_grid(r1), t2);
    let r2 = align_shape(t2);
    lemma_turn_aligned(t2, r2, turn_grid(r2), t3);
    let r3 = align_shape(t3);
    lemma_turn_aligned(t3, r3, turn_grid(r3), t4);
    lemma_turn_twice(s, t1);
    lemma_turn_twice(t2, t3);
    lemma_half_turn_twice(s, t2);
    lemma_aligned_fixed(s);
}

/// Mirroring a piece shape twice gives the shape back.
pub proof fn lemma_flip_twice(s: u32)
    requires
        is_shape(s),
    ensures
        flip_shape(flip_shape(s)) == s,
{
    let m1 = mirror_grid(s);
    lemma_turn_in_grid(s);
    let f1 = align_shape(m1);
    lemma_mirror_aligned(m1, f1, mirror_grid(f1), mirror_grid(m1));
    lemma_mirror_twice(s, m1);
    lemma_aligned_fixed(s);
}

/// Aligning is idempotent on masks of the local grid.
pub proof fn lemma_align_idempotent(s: u32)
    requires
        in_grid(s),
    ensures
        align_shape(align_shape(s)) == align_shape(s),
{
    let a = align_shape(s);
    assert(align_shape(a) == a) by (bit_vector)
        requires
            in_grid(s),
            a == align_shape(s),
    ;
}

/// A shape placed at the board's origin covers exactly the cells of its own
/// mask, starting at bit 0.
pub proof fn lemma_place_at_origin(s: u32)
    ensures
        placed_cells(s, 0, 0) == s as u64,
{
    assert(placed_cells(s, 0, 0) == s as u64) by (bit_vector);
}

} // verus!
