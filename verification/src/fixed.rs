//! Signed 32.32 fixed-point plane coordinates.
//!
//! A coordinate is an `i64` holding the value scaled by `FX_ONE` (2^32),
//! so every number the engine touches is an exact integer and the
//! contracts can speak of plain integer arithmetic. Products are
//! truncated toward zero, exactly as [`fx_mul_bits`] states.

use vstd::prelude::*;

verus! {

/// Scale of the representation: one plane unit, in bits.
pub const FX_ONE: i64 = 0x1_0000_0000;

/// Largest operand magnitude (in bits) the arithmetic operations accept;
/// within it, sums and truncated products of two operands fit in `i64`.
pub const FX_LIMIT: i64 = 0x2000_0000_0000;

/// Quotient of `p` by `d`, rounded toward zero (`d > 0`).
pub open spec fn div_trunc(p: int, d: int) -> int {
    if p >= 0 {
        p / d
    } else {
        -((-p) / d)
    }
}

/// The bits of the product of two fixed-point numbers: the exact
/// integer product, rescaled by truncation toward zero.
pub open spec fn fx_mul_bits(a: int, b: int) -> int {
    div_trunc(a * b, FX_ONE as int)
}

/// A plane coordinate in signed 32.32 fixed-point form.
#[derive(Clone, Copy, Debug, PartialEq, Eq, Structural)]
pub struct Fx {
    pub bits: i64,
}

impl Fx {
    /// The coordinate holding exactly the integer `v`.
    pub fn from_int(v: i32) -> (r: Fx)
        ensures
            r.bits == v * FX_ONE,
    {
        Fx { bits: (v as i64) * FX_ONE }
    }

    /// The coordinate nearest `num / den` toward zero.
    pub fn from_ratio(num: i64, den: i64) -> (r: Fx)
        requires
            1 <= den,
            -0x4000_0000 <= num <= 0x4000_0000,
        ensures
            r.bits == div_trunc(num * FX_ONE, den as int),
    {
        let neg: bool = num < 0;
        let mag: u64 = if neg { (-num) as u64 } else { num as u64 };
        let scaled: u64 = mag * 0x1_0000_0000u64;
        let q: u64 = scaled / (den as u64);
        if neg {
            Fx { bits: -(q as i64) }
        } else {
            Fx { bits: q as i64 }
        }
    }

    /// Fixed-point addition; exact.
    pub fn add(self, other: Fx) -> (r: Fx)
        requires
            -FX_LIMIT <= self.bits <= FX_LIMIT,
            -FX_LIMIT <= other.bits <= FX_LIMIT,
        ensures
            r.bits == self.bits + other.bits,
    {
        Fx { bits: self.bits + other.bits }
    }

    /// Fixed-point subtraction; exact.
    pub fn sub(self, other: Fx) -> (r: Fx)
        requires
            -FX_LIMIT <= self.bits <= FX_LIMIT,
            -FX_LIMIT <= other.bits <= FX_LIMIT,
        ensures
            r.bits == self.bits - other.bits,
    {
        Fx { bits: self.bits - other.bits }
    }

    /// Fixed-point multiplication, truncated toward zero.
    pub fn mul(self, other: Fx) -> (r: Fx)
        requires
            -FX_LIMIT <= self.bits <= FX_LIMIT,
            -FX_LIMIT <= other.bits <= FX_LIMIT,
        ensures
            r.bits == fx_mul_bits(self.bits as int, other.bits as int),
    {
        proof {
            lemma_mul_magnitude(self.bits as int, other.bits as int, FX_LIMIT as int);
        }
        let p: i128 = (self.bits as i128) * (other.bits as i128);
        if p >= 0 {
            let q: u128 = (p as u128) / 0x1_0000_0000u128;
            proof {
                lemma_quot_small(p as int, FX_LIMIT as int * FX_LIMIT as int);
            }
            Fx { bits: q as i64 }
        } else {
            let m: u128 = (-p) as u128;
            let q: u128 = m / 0x1_0000_0000u128;
            proof {
                lemma_quot_small(-p as int, FX_LIMIT as int * FX_LIMIT as int);
            }
            Fx { bits: -(q as i64) }
        }
    }
}

/// The magnitude of a product is bounded by the product of the bounds.
proof fn lemma_mul_magnitude(a: int, b: int, m: int)
    by (nonlinear_arith)
    requires
        0 <= m,
        -m <= a <= m,
        -m <= b <= m,
    ensures
        -(m * m) <= a * b <= m * m,
{
}

/// A non-negative value below `m` keeps its quotient by `FX_ONE` below
/// `m / FX_ONE`.
proof fn lemma_quot_small(p: int, m: int)
    requires
        0 <= p <= m,
    ensures
        0 <= p / (FX_ONE as int) <= m / (FX_ONE as int),
{
    vstd::arithmetic::div_mod::lemma_div_is_ordered(p, m, FX_ONE as int);
    vstd::arithmetic::div_mod::lemma_div_pos_is_pos(p, FX_ONE as int);
}

/// Truncated division stays within the truncated bound of the magnitude:
/// for `-m <= p <= m`, the truncated quotient lies within `m / FX_ONE`.
pub proof fn lemma_div_trunc_bound(p: int, m: int)
    requires
        0 <= m,
        -m <= p <= m,
    ensures
        -(m / (FX_ONE as int)) <= div_trunc(p, FX_ONE as int) <= m / (FX_ONE as int),
{
    if p >= 0 {
        lemma_quot_small(p, m);
    } else {
        lemma_quot_small(-p, m);
    }
}

/// The truncated product of values bounded by `m` is bounded by
/// `(m * m) / FX_ONE`.
pub proof fn lemma_fx_mul_bound(a: int, b: int, m: int)
    requires
        0 <= m,
        -m <= a <= m,
        -m <= b <= m,
    ensures
        -((m * m) / (FX_ONE as int)) <= fx_mul_bits(a, b) <= (m * m) / (FX_ONE as int),
{
    lemma_mul_magnitude(a, b, m);
    lemma_div_trunc_bound(a * b, m * m);
}

/// The truncated square of a value is non-negative.
pub proof fn lemma_fx_square_nonneg(a: int)
    ensures
        0 <= fx_mul_bits(a, a),
{
    assert(0 <= a * a) by (nonlinear_arith);
    vstd::arithmetic::div_mod::lemma_div_pos_is_pos(a * a, FX_ONE as int);
}

} // verus!
