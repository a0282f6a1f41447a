//! The drop chance, a single-precision number held by its bit pattern.
//!
//! The daemon stores the chance and compares a random draw against it. Both
//! travel as IEEE-754 bit patterns, and the comparisons here order two
//! patterns as the numbers they stand for are ordered: a NaN compares false
//! with everything, and the two zeros are equal.

use vstd::prelude::*;

verus! {

/// The bit pattern of `1.0`.
pub const ONE: u32 = 0x3f80_0000;

/// The bit pattern of `0.0`.
pub const ZERO: u32 = 0;

/// Whether the pattern stands for no number.
pub open spec fn is_nan(bits: u32) -> bool {
    bits & 0x7fff_ffff > 0x7f80_0000
}

/// Where the pattern's number stands among all of them: patterns with the
/// sign bit count downwards from zero, the others upwards.
pub open spec fn rank(bits: u32) -> int {
    if bits & 0x8000_0000 != 0 {
        -((bits & 0x7fff_ffff) as int)
    } else {
        (bits & 0x7fff_ffff) as int
    }
}

/// `a < b` on the numbers that the patterns stand for.
pub open spec fn less(a: u32, b: u32) -> bool {
    !is_nan(a) && !is_nan(b) && rank(a) < rank(b)
}

/// `0.0 <= v && v <= 1.0` on the number that the pattern stands for.
pub open spec fn in_unit_interval(bits: u32) -> bool {
    !is_nan(bits) && 0 <= rank(bits) <= rank(ONE)
}

/// `v != 0.0` on the number that the pattern stands for.
pub open spec fn is_nonzero(bits: u32) -> bool {
    bits & 0x7fff_ffff != 0
}

/// Whether a CAN packet is discarded: the chance is not zero and the draw
/// falls strictly below it.
pub open spec fn drops(chance: u32, draw: u32) -> bool {
    is_nonzero(chance) && less(draw, chance)
}

fn rank_of(bits: u32) -> (r: i64)
    ensures
        r == rank(bits),
{
    let magnitude: u32 = bits & 0x7fff_ffff;
    if bits & 0x8000_0000 != 0 {
        -(magnitude as i64)
    } else {
        magnitude as i64
    }
}

fn nan(bits: u32) -> (b: bool)
    ensures
        b == is_nan(bits),
{
    bits & 0x7fff_ffff > 0x7f80_0000
}

/// Compares two patterns as numbers.
pub fn is_less(a: u32, b: u32) -> (r: bool)
    ensures
        r == less(a, b),
{
    !nan(a) && !nan(b) && rank_of(a) < rank_of(b)
}

/// Whether the pattern stands for a number of `[0, 1]`.
pub fn is_probability(bits: u32) -> (r: bool)
    ensures
        r == in_unit_interval(bits),
{
    if nan(bits) {
        return false;
    }
    let r = rank_of(bits);
    let one = rank_of(ONE);
    0 <= r && r <= one
}

/// Whether a CAN packet is discarded under `chance`, given the `draw` made
/// for it.
pub fn is_dropped(chance: u32, draw: u32) -> (r: bool)
    ensures
        r == drops(chance, draw),
{
    chance & 0x7fff_ffff != 0 && is_less(draw, chance)
}

/// A chance of zero drops nothing, whatever is drawn.
pub proof fn lemma_zero_chance_keeps(draw: u32)
    ensures
        !drops(ZERO, draw),
{
    assert(ZERO & 0x7fff_ffff == 0) by (bit_vector);
}

/// A chance of one drops every packet whose draw lies in `[0, 1)`.
pub proof fn lemma_full_chance_drops(draw: u32)
    requires
        draw < ONE,
    ensures
        drops(ONE, draw),
{
    assert(ONE & 0x7fff_ffff == 0x3f80_0000) by (bit_vector);
    assert(ONE & 0x8000_0000 == 0) by (bit_vector);
    assert(draw < 0x3f80_0000 ==> draw & 0x7fff_ffff == draw && draw & 0x8000_0000 == 0)
        by (bit_vector);
}

} // verus!
