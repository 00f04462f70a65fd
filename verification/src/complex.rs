//! Points of the complex plane, with the named arithmetic operations
//! the escape iteration needs.

use vstd::prelude::*;

use crate::fixed::{fx_mul_bits, Fx, FX_LIMIT};

verus! {

/// Magnitude bound (in bits) on the window corners the engine accepts:
/// eight plane units, far outside the disk where the set lives.
pub const COORD_LIMIT: i64 = 0x8_0000_0000;

/// The squared norm, in bits: `re*re + im*im` under fixed-point
/// truncation.
pub open spec fn norm_sqr_bits(re: int, im: int) -> int {
    fx_mul_bits(re, re) + fx_mul_bits(im, im)
}

/// A value type copied freely: a point `re + im*i` of the plane.
#[derive(Clone, Copy, Debug, PartialEq, Eq, Structural)]
pub struct ComplexPoint {
    pub re: Fx,
    pub im: Fx,
}

impl ComplexPoint {
    /// Both coordinates within `COORD_LIMIT`: a point the engine can
    /// iterate without leaving the range of the representation.
    pub open spec fn in_range(self) -> bool {
        &&& -COORD_LIMIT <= self.re.bits <= COORD_LIMIT
        &&& -COORD_LIMIT <= self.im.bits <= COORD_LIMIT
    }

    /// The point with the given coordinates.
    pub fn new(re: Fx, im: Fx) -> (r: ComplexPoint)
        ensures
            r == (ComplexPoint { re, im }),
    {
        ComplexPoint { re, im }
    }

    /// The origin of the plane.
    pub fn zero() -> (r: ComplexPoint)
        ensures
            r.re.bits == 0,
            r.im.bits == 0,
    {
        ComplexPoint { re: Fx { bits: 0 }, im: Fx { bits: 0 } }
    }

    /// Componentwise sum; exact.
    pub fn add(self, other: ComplexPoint) -> (r: ComplexPoint)
        requires
            -FX_LIMIT <= self.re.bits <= FX_LIMIT,
            -FX_LIMIT <= self.im.bits <= FX_LIMIT,
            -FX_LIMIT <= other.re.bits <= FX_LIMIT,
            -FX_LIMIT <= other.im.bits <= FX_LIMIT,
        ensures
            r.re.bits == self.re.bits + other.re.bits,
            r.im.bits == self.im.bits + other.im.bits,
    {
        ComplexPoint { re: self.re.add(other.re), im: self.im.add(other.im) }
    }

    /// Componentwise difference; exact.
    pub fn sub(self, other: ComplexPoint) -> (r: ComplexPoint)
        requires
            -FX_LIMIT <= self.re.bits <= FX_LIMIT,
            -FX_LIMIT <= self.im.bits <= FX_LIMIT,
            -FX_LIMIT <= other.re.bits <= FX_LIMIT,
            -FX_LIMIT <= other.im.bits <= FX_LIMIT,
        ensures
            r.re.bits == self.re.bits - other.re.bits,
            r.im.bits == self.im.bits - other.im.bits,
    {
        ComplexPoint { re: self.re.sub(other.re), im: self.im.sub(other.im) }
    }

    /// The squared norm `re*re + im*im` as a fixed-point number.
    pub fn norm_sqr(self) -> (r: Fx)
        requires
            -FX_LIMIT <= self.re.bits <= FX_LIMIT,
            -FX_LIMIT <= self.im.bits <= FX_LIMIT,
        ensures
            r.bits == norm_sqr_bits(self.re.bits as int, self.im.bits as int),
            r.bits >= 0,
    {
        proof {
            crate::fixed::lemma_fx_mul_bound(
                self.re.bits as int,
                self.re.bits as int,
                FX_LIMIT as int,
            );
            crate::fixed::lemma_fx_mul_bound(
                self.im.bits as int,
                self.im.bits as int,
                FX_LIMIT as int,
            );
            crate::fixed::lemma_fx_square_nonneg(self.re.bits as int);
            crate::fixed::lemma_fx_square_nonneg(self.im.bits as int);
        }
        let rr: Fx = self.re.mul(self.re);
        let ii: Fx = self.im.mul(self.im);
        Fx { bits: rr.bits + ii.bits }
    }
}

} // verus!
