//! The escape-time evaluation: how many iterations of `z -> z*z + c`
//! a point survives before its squared norm exceeds 4.

use vstd::prelude::*;

use crate::complex::{norm_sqr_bits, ComplexPoint};
use crate::fixed::{fx_mul_bits, lemma_fx_mul_bound, lemma_fx_square_nonneg, Fx, FX_ONE};

verus! {

/// The iteration budget: points that survive this many steps count as
/// interior.
pub const MAX_ITER: u8 = 255;

/// The squared bailout radius, in bits: 4 plane units.
pub const ESCAPE_NORM_BITS: i64 = 0x4_0000_0000;

/// Real part of one iteration step `z*z + c`.
pub open spec fn step_re(zr: int, zi: int, cr: int) -> int {
    fx_mul_bits(zr, zr) - fx_mul_bits(zi, zi) + cr
}

/// Imaginary part of one iteration step `z*z + c`.
pub open spec fn step_im(zr: int, zi: int, ci: int) -> int {
    2 * fx_mul_bits(zr, zi) + ci
}

/// The orbit of `c`: the `n`-th iterate of `z -> z*z + c` from 0, as a
/// pair of coordinate bits.
pub open spec fn orbit(cr: int, ci: int, n: nat) -> (int, int)
    decreases n,
{
    if n == 0 {
        (0, 0)
    } else {
        let z = orbit(cr, ci, (n - 1) as nat);
        (step_re(z.0, z.1, cr), step_im(z.0, z.1, ci))
    }
}

/// The orbit of `c` leaves the bailout disk at step `i`: the iterate
/// after `i + 1` steps has squared norm above 4.
pub open spec fn escaped(cr: int, ci: int, i: nat) -> bool {
    let z = orbit(cr, ci, (i + 1) as nat);
    norm_sqr_bits(z.0, z.1) > ESCAPE_NORM_BITS
}

/// The first index in `[i, limit)` at which the orbit of `c` escapes,
/// if any.
pub open spec fn esc_from(cr: int, ci: int, i: nat, limit: nat) -> Option<nat>
    decreases limit - i,
{
    if i >= limit {
        None
    } else if escaped(cr, ci, i) {
        Some(i)
    } else {
        esc_from(cr, ci, (i + 1) as nat, limit)
    }
}

/// The escape time of `c`: the least iteration index below `limit` at
/// which the orbit leaves the bailout disk, or `None` if it never does
/// within the budget.
pub open spec fn escape_time_spec(cr: int, ci: int, limit: nat) -> Option<nat> {
    esc_from(cr, ci, 0, limit)
}

/// `esc_from` returns the least escaping index at or after `i`, and
/// `None` exactly when no index in `[i, limit)` escapes.
pub proof fn lemma_esc_from_least(cr: int, ci: int, i: nat, limit: nat)
    ensures
        match esc_from(cr, ci, i, limit) {
            Some(n) => i <= n < limit && escaped(cr, ci, n) && (forall|j: nat|
                i <= j < n ==> !escaped(cr, ci, j)),
            None => forall|j: nat| i <= j < limit ==> !escaped(cr, ci, j),
        },
    decreases limit - i,
{
    if i < limit && !escaped(cr, ci, i) {
        lemma_esc_from_least(cr, ci, (i + 1) as nat, limit);
    }
}

/// A point whose squared norm is still within the bailout disk has both
/// coordinates within two plane units.
proof fn lemma_norm_small_components(zr: int, zi: int)
    requires
        norm_sqr_bits(zr, zi) <= ESCAPE_NORM_BITS as int,
    ensures
        -2 * FX_ONE <= zr <= 2 * FX_ONE,
        -2 * FX_ONE <= zi <= 2 * FX_ONE,
{
    lemma_fx_square_nonneg(zr);
    lemma_fx_square_nonneg(zi);
    lemma_component_small(zr);
    lemma_component_small(zi);
}

/// A coordinate whose truncated square is at most 4 plane units is
/// itself within two plane units.
proof fn lemma_component_small(a: int)
    requires
        fx_mul_bits(a, a) <= ESCAPE_NORM_BITS as int,
    ensures
        -2 * FX_ONE <= a <= 2 * FX_ONE,
{
    assert(0 <= a * a) by (nonlinear_arith);
    assert(fx_mul_bits(a, a) == (a * a) / (FX_ONE as int));
    vstd::arithmetic::div_mod::lemma_fundamental_div_mod(a * a, FX_ONE as int);
    assert(a * a <= 4 * (FX_ONE as int) * (FX_ONE as int) + FX_ONE - 1);
    assert(-2 * FX_ONE <= a <= 2 * FX_ONE) by (nonlinear_arith)
        requires
            a * a <= 4 * (FX_ONE as int) * (FX_ONE as int) + FX_ONE - 1,
    ;
}

/// The escape time of `c` under a caller-chosen iteration budget.
///
/// Returns the 0-based index of the first iteration whose updated `z`
/// has squared norm above 4, or `None` if the orbit stays within the
/// disk for all `limit` iterations.
pub fn escape_time_limit(c: ComplexPoint, limit: u8) -> (r: Option<u8>)
    requires
        c.in_range(),
    ensures
        ({
            let cr = c.re.bits as int;
            let ci = c.im.bits as int;
            match r {
                Some(i) => {
                    &&& i < limit
                    &&& escaped(cr, ci, i as nat)
                    &&& forall|j: nat| j < i as nat ==> !escaped(cr, ci, j)
                    &&& escape_time_spec(cr, ci, limit as nat) == Some(i as nat)
                },
                None => {
                    &&& forall|j: nat| j < limit as nat ==> !escaped(cr, ci, j)
                    &&& escape_time_spec(cr, ci, limit as nat) is None
                },
            }
        }),
{
    let ghost cr = c.re.bits as int;
    let ghost ci = c.im.bits as int;
    let mut z: ComplexPoint = ComplexPoint::zero();
    let mut i: u8 = 0;
    while i < limit
        invariant
            c.in_range(),
            cr == c.re.bits as int,
            ci == c.im.bits as int,
            i <= limit,
            (z.re.bits as int, z.im.bits as int) == orbit(cr, ci, i as nat),
            norm_sqr_bits(z.re.bits as int, z.im.bits as int) <= ESCAPE_NORM_BITS as int,
            forall|j: nat| j < i as nat ==> !escaped(cr, ci, j),
        decreases limit - i,
    {
        proof {
            lemma_norm_small_components(z.re.bits as int, z.im.bits as int);
            lemma_fx_mul_bound(z.re.bits as int, z.re.bits as int, 2 * FX_ONE as int);
            lemma_fx_mul_bound(z.im.bits as int, z.im.bits as int, 2 * FX_ONE as int);
            lemma_fx_mul_bound(z.re.bits as int, z.im.bits as int, 2 * FX_ONE as int);
            lemma_fx_square_nonneg(z.re.bits as int);
            lemma_fx_square_nonneg(z.im.bits as int);
        }
        let rr: Fx = z.re.mul(z.re);
        let ii: Fx = z.im.mul(z.im);
        let ri: Fx = z.re.mul(z.im);
        let new_re: Fx = Fx { bits: rr.bits - ii.bits + c.re.bits };
        let new_im: Fx = Fx { bits: ri.bits + ri.bits + c.im.bits };
        proof {
            let zp = orbit(cr, ci, i as nat);
            assert(orbit(cr, ci, (i + 1) as nat) == (
                step_re(zp.0, zp.1, cr),
                step_im(zp.0, zp.1, ci),
            ));
        }
        z = ComplexPoint { re: new_re, im: new_im };
        let n: Fx = z.norm_sqr();
        if n.bits > ESCAPE_NORM_BITS {
            proof {
                assert(escaped(cr, ci, i as nat));
                lemma_esc_from_least(cr, ci, 0, limit as nat);
            }
            return Some(i);
        }
        i = i + 1;
    }
    proof {
        lemma_esc_from_least(cr, ci, 0, limit as nat);
    }
    None
}

/// The escape time of `c` under the fixed `MAX_ITER` budget.
pub fn escape_time(c: ComplexPoint) -> (r: Option<u8>)
    requires
        c.in_range(),
    ensures
        ({
            let cr = c.re.bits as int;
            let ci = c.im.bits as int;
            match r {
                Some(i) => {
                    &&& i < MAX_ITER
                    &&& escaped(cr, ci, i as nat)
                    &&& forall|j: nat| j < i as nat ==> !escaped(cr, ci, j)
                    &&& escape_time_spec(cr, ci, MAX_ITER as nat) == Some(i as nat)
                },
                None => {
                    &&& forall|j: nat| j < MAX_ITER as nat ==> !escaped(cr, ci, j)
                    &&& escape_time_spec(cr, ci, MAX_ITER as nat) is None
                },
            }
        }),
{
    escape_time_limit(c, MAX_ITER)
}

} // verus!
