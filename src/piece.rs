use vstd::array::array_as_slice;
use vstd::prelude::*;
use vstd::slice::slice_to_vec;

use crate::bitpiece::{flip_shape, rotate_shape, BitPiece};

verus! {

/// The distinct orientations of a piece, `N` of them.
#[derive(Clone, Copy, Debug, PartialEq, Eq)]
pub struct Variations<const N: usize>(pub [BitPiece; N]);

/// A piece of a puzzle, as the list of its distinct orientations.
#[derive(Clone, Debug, PartialEq, Eq)]
pub struct Piece {
    pub variations: Vec<BitPiece>,
}

/// A shape and its three further quarter turns.
pub open spec fn four_turns(s: u32) -> Seq<u32> {
    seq![s, rotate_shape(s), rotate_shape(rotate_shape(s)), rotate_shape(rotate_shape(rotate_shape(s)))]
}

/// The orientations of a fully symmetric shape: the shape alone.
pub open spec fn symmetric_orientations(s: u32) -> Seq<BitPiece> {
    seq![BitPiece(s)]
}

/// The orientations of a shape that a half turn maps to itself: the shape and
/// its quarter turn.
pub open spec fn two_orientations(s: u32) -> Seq<BitPiece> {
    seq![BitPiece(s), BitPiece(rotate_shape(s))]
}

/// The orientations of a shape whose mirror image is one of its turns: its
/// four quarter turns.
pub open spec fn turn_orientations(s: u32) -> Seq<BitPiece> {
    four_turns(s).map_values(|t: u32| BitPiece(t))
}

/// The orientations of a shape that a half turn maps to itself but whose mirror
/// image is new: the shape, its quarter turn, the mirror image of that, and
/// the quarter turn of the mirror image.
pub open spec fn mirrored_pair_orientations(s: u32) -> Seq<BitPiece> {
    let r = rotate_shape(s);
    let f = flip_shape(r);
    seq![BitPiece(s), BitPiece(r), BitPiece(f), BitPiece(rotate_shape(f))]
}

/// The orientations of a shape without symmetry: its four quarter turns, then
/// the four quarter turns of the mirror image of the last of them.
pub open spec fn all_orientations(s: u32) -> Seq<BitPiece> {
    let m = flip_shape(rotate_shape(rotate_shape(rotate_shape(s))));
    (four_turns(s) + four_turns(m)).map_values(|t: u32| BitPiece(t))
}

impl<const N: usize> Variations<N> {
    /// The piece with these orientations.
    pub fn as_ref(&self) -> (r: Piece)
        ensures
            r.variations@ == self.0@,
    {
        Piece { variations: slice_to_vec(array_as_slice(&self.0)) }
    }
}

impl Variations<1> {
    /// Orientations of a piece that has no distinct rotation or reflection.
    pub fn new(shape: u32) -> (r: Variations<1>)
        ensures
            r.0@ == symmetric_orientations(shape),
    {
        let r = Variations([BitPiece::new(shape)]);
        assert(r.0@ =~= symmetric_orientations(shape));
        r
    }
}

impl Variations<2> {
    /// Orientations of a piece with one distinct quarter turn.
    pub fn rotations(shape: u32) -> (r: Variations<2>)
        ensures
            r.0@ == two_orientations(shape),
    {
        let base = BitPiece::new(shape);
        let r = Variations([base, base.rotate()]);
        assert(r.0@ =~= two_orientations(shape));
        r
    }
}

impl Variations<4> {
    /// Orientations of a piece with four distinct turns, whose reflections
    /// are among them.
    pub fn rotations(shape: u32) -> (r: Variations<4>)
        ensures
            r.0@ == turn_orientations(shape),
    {
        let mut variations = [BitPiece::new(shape);4];
        variations[1] = variations[0].rotate();
        variations[2] = variations[1].rotate();
        variations[3] = variations[2].rotate();
        let r = Variations(variations);
        assert(r.0@ =~= turn_orientations(shape));
        r
    }

    /// Orientations of a piece with two distinct turns and their two
    /// reflections.
    pub fn rotations_and_reflections(shape: u32) -> (r: Variations<4>)
        ensures
            r.0@ == mirrored_pair_orientations(shape),
    {
        let mut variations = [BitPiece::new(shape);4];
        variations[1] = variations[0].rotate();
        variations[2] = variations[1].flip();
        variations[3] = variations[2].rotate();
        let r = Variations(variations);
        assert(r.0@ =~= mirrored_pair_orientations(shape));
        r
    }
}

impl Variations<8> {
    /// Orientations of a piece with eight distinct orientations.
    pub fn rotations_and_reflections(shape: u32) -> (r: Variations<8>)
        ensures
            r.0@ == all_orientations(shape),
    {
        let mut variations = [BitPiece::new(shape);8];
        variations[1] = variations[0].rotate();
        variations[2] = variations[1].rotate();
        variations[3] = variations[2].rotate();
        variations[4] = variations[3].flip();
        variations[5] = variations[4].rotate();
        variations[6] = variations[5].rotate();
        variations[7] = variations[6].rotate();
        let r = Variations(variations);
        assert(r.0@ =~= all_orientations(shape));
        r
    }
}

/// The piece shaped as a 2x3 rectangle (6 cells).
pub fn piece_rect() -> (r: Variations<2>)
    ensures
        r.0@ == two_orientations(0x707),
{
    Variations::<2>::rotations(0x707)
}

/// The piece shaped as a U (5 cells).
pub fn piece_u() -> (r: Variations<4>)
    ensures
        r.0@ == turn_orientations(0x30103),
{
    Variations::<4>::rotations(0x30103)
}

/// The piece shaped as a corner with arms of three (5 cells).
pub fn piece_corner() -> (r: Variations<4>)
    ensures
        r.0@ == turn_orientations(0x10107),
{
    Variations::<4>::rotations(0x10107)
}

/// The piece shaped as a tall S (5 cells).
pub fn piece_tall_s() -> (r: Variations<4>)
    ensures
        r.0@ == mirrored_pair_orientations(0x30206),
{
    Variations::<4>::rotations_and_reflections(0x30206)
}

/// The piece shaped as an L with a long arm of four (5 cells).
pub fn piece_tall_l() -> (r: Variations<8>)
    ensures
        r.0@ == all_orientations(0x10f),
{
    Variations::<8>::rotations_and_reflections(0x10f)
}

/// The piece shaped as a long Z (5 cells).
pub fn piece_long_z() -> (r: Variations<8>)
    ensures
        r.0@ == all_orientations(0x30e),
{
    Variations::<8>::rotations_and_reflections(0x30e)
}

/// The piece shaped as a T with its stem off centre (5 cells).
pub fn piece_uneven_t() -> (r: Variations<8>)
    ensures
        r.0@ == all_orientations(0x20f),
{
    Variations::<8>::rotations_and_reflections(0x20f)
}

/// The piece shaped as a P, a 2x2 square with one cell more (5 cells).
pub fn piece_six() -> (r: Variations<8>)
    ensures
        r.0@ == all_orientations(0x30301),
{
    Variations::<8>::rotations_and_reflections(0x30301)
}

/// The piece shaped as a W (5 cells).
pub fn piece_w() -> (r: Variations<4>)
    ensures
        r.0@ == turn_orientations(0x60301),
{
    Variations::<4>::rotations(0x60301)
}

/// The piece shaped as an H with one short leg (6 cells).
pub fn piece_h() -> (r: Variations<8>)
    ensures
        r.0@ == all_orientations(0x10705),
{
    Variations::<8>::rotations_and_reflections(0x10705)
}

/// The piece shaped as a T with a stem of two (5 cells).
pub fn piece_tall_t() -> (r: Variations<4>)
    ensures
        r.0@ == turn_orientations(0x20207),
{
    Variations::<4>::rotations(0x20207)
}

/// The piece shaped as a 2x2 square (4 cells).
pub fn piece_square() -> (r: Variations<1>)
    ensures
        r.0@ == symmetric_orientations(0x303),
{
    Variations::<1>::new(0x303)
}

/// The piece shaped as an L (4 cells).
pub fn piece_l() -> (r: Variations<8>)
    ensures
        r.0@ == all_orientations(0x107),
{
    Variations::<8>::rotations_and_reflections(0x107)
}

/// The piece shaped as a T (4 cells).
pub fn piece_t() -> (r: Variations<4>)
    ensures
        r.0@ == turn_orientations(0x207),
{
    Variations::<4>::rotations(0x207)
}

/// The piece shaped as a straight line (4 cells).
pub fn piece_line() -> (r: Variations<2>)
    ensures
        r.0@ == two_orientations(0xf),
{
    Variations::<2>::rotations(0xf)
}

/// The piece shaped as a Z (4 cells).
pub fn piece_z() -> (r: Variations<4>)
    ensures
        r.0@ == mirrored_pair_orientations(0x306),
{
    Variations::<4>::rotations_and_reflections(0x306)
}

} // verus!
