//! The plane mapper: a window of the complex plane laid over a pixel
//! grid, and the transformation from pixel indices to plane points.

use vstd::prelude::*;

use crate::complex::{ComplexPoint, COORD_LIMIT};
use crate::errors::RenderError;
use crate::fixed::Fx;

verus! {

/// The configurations the engine accepts: positive pixel dimensions,
/// corners within the representable range, the window neither
/// degenerate nor inverted, and a pixel buffer that fits in memory.
pub open spec fn valid_config(
    width: u32,
    height: u32,
    bot_left: ComplexPoint,
    top_right: ComplexPoint,
) -> bool {
    &&& 0 < width
    &&& 0 < height
    &&& bot_left.in_range()
    &&& top_right.in_range()
    &&& bot_left.re.bits < top_right.re.bits
    &&& bot_left.im.bits < top_right.im.bits
    &&& width * height <= usize::MAX
}

/// The window a valid configuration builds: the bottom-left corner as
/// origin and the vector to the top-right corner as span.
pub open spec fn window_spec(
    width: u32,
    height: u32,
    bot_left: ComplexPoint,
    top_right: ComplexPoint,
) -> Dimen {
    Dimen {
        width,
        height,
        origin: bot_left,
        window: ComplexPoint {
            re: Fx { bits: (top_right.re.bits - bot_left.re.bits) as i64 },
            im: Fx { bits: (top_right.im.bits - bot_left.im.bits) as i64 },
        },
    }
}

/// Image dimensions both in pixels and in the complex plane: `origin`
/// is the plane point of the bottom-left corner, `window` the span to
/// the top-right corner. Immutable once constructed.
#[derive(Clone, Copy, Debug, PartialEq, Eq, Structural)]
pub struct Dimen {
    pub width: u32,
    pub height: u32,
    pub origin: ComplexPoint,
    pub window: ComplexPoint,
}

impl Dimen {
    /// Well-formedness: what `new` establishes and every mapper method
    /// relies on. Positive dimensions and a positive span keep the
    /// divisions meaningful; the range bounds keep every mapped point
    /// within `ComplexPoint::in_range`; the size bound keeps the buffer
    /// length a `usize`.
    pub open spec fn wf(self) -> bool {
        &&& 0 < self.width
        &&& 0 < self.height
        &&& 0 < self.window.re.bits
        &&& 0 < self.window.im.bits
        &&& -COORD_LIMIT <= self.origin.re.bits
        &&& -COORD_LIMIT <= self.origin.im.bits
        &&& self.origin.re.bits + self.window.re.bits <= COORD_LIMIT
        &&& self.origin.im.bits + self.window.im.bits <= COORD_LIMIT
        &&& self.width * self.height <= usize::MAX
    }

    /// Real coordinate (in bits) of the point pixel column `x` maps to:
    /// `origin.re + x * span.re / width`.
    pub open spec fn point_re(self, x: int) -> int {
        self.origin.re.bits + (x * self.window.re.bits) / (self.width as int)
    }

    /// Imaginary coordinate (in bits) of the point pixel row `y` maps
    /// to: `origin.im + (height - y) * span.im / height`. The `height -
    /// y` term inverts the vertical axis, so the top image row is the
    /// top edge of the window.
    pub open spec fn point_im(self, y: int) -> int {
        self.origin.im.bits + ((self.height - y) * self.window.im.bits) / (self.height as int)
    }

    /// Computes window dimensions from the bottom-left and top-right
    /// points on the complex plane; rejects degenerate or inverted
    /// geometry before any work is scheduled.
    pub fn new(width: u32, height: u32, bot_left: ComplexPoint, top_right: ComplexPoint) -> (r:
        Result<Dimen, RenderError>)
        ensures
            match r {
                Ok(d) => valid_config(width, height, bot_left, top_right) && d == window_spec(
                    width,
                    height,
                    bot_left,
                    top_right,
                ) && d.wf(),
                Err(e) => !valid_config(width, height, bot_left, top_right) && e
                    == RenderError::ConfigError,
            },
    {
        if width == 0 || height == 0 {
            return Err(RenderError::ConfigError);
        }
        if bot_left.re.bits < -COORD_LIMIT || bot_left.re.bits > COORD_LIMIT
            || bot_left.im.bits < -COORD_LIMIT || bot_left.im.bits > COORD_LIMIT
            || top_right.re.bits < -COORD_LIMIT || top_right.re.bits > COORD_LIMIT
            || top_right.im.bits < -COORD_LIMIT || top_right.im.bits > COORD_LIMIT {
            return Err(RenderError::ConfigError);
        }
        if top_right.re.bits <= bot_left.re.bits || top_right.im.bits <= bot_left.im.bits {
            return Err(RenderError::ConfigError);
        }
        proof {
            lemma_area_fits(width as int, height as int);
        }
        if (width as u64) * (height as u64) > (usize::MAX as u64) {
            return Err(RenderError::ConfigError);
        }
        let window = ComplexPoint {
            re: Fx { bits: top_right.re.bits - bot_left.re.bits },
            im: Fx { bits: top_right.im.bits - bot_left.im.bits },
        };
        Ok(Dimen { width, height, origin: bot_left, window })
    }

    /// Coordinate transformation from image pixels into the complex
    /// plane. Pure: no side effects and no failure mode, since the
    /// window invariant keeps both divisors positive.
    pub fn px2complex(&self, x: u32, y: u32) -> (r: ComplexPoint)
        requires
            self.wf(),
            x < self.width,
            y < self.height,
        ensures
            r.re.bits == self.point_re(x as int),
            r.im.bits == self.point_im(y as int),
            r.in_range(),
    {
        proof {
            lemma_scale_bound(x as int, self.window.re.bits as int, self.width as int);
            lemma_scale_bound(
                self.height - y as int,
                self.window.im.bits as int,
                self.height as int,
            );
        }
        let num_re: u128 = (x as u128) * (self.window.re.bits as u128);
        let q_re: u128 = num_re / (self.width as u128);
        let re_bits: i64 = self.origin.re.bits + (q_re as i64);
        let hy: u32 = self.height - y;
        let num_im: u128 = (hy as u128) * (self.window.im.bits as u128);
        let q_im: u128 = num_im / (self.height as u128);
        let im_bits: i64 = self.origin.im.bits + (q_im as i64);
        ComplexPoint { re: Fx { bits: re_bits }, im: Fx { bits: im_bits } }
    }
}

/// A pixel count times a pixel count fits in a `u64`.
proof fn lemma_area_fits(w: int, h: int)
    by (nonlinear_arith)
    requires
        0 <= w <= 0xFFFF_FFFF,
        0 <= h <= 0xFFFF_FFFF,
    ensures
        w * h <= 0xFFFF_FFFF_FFFF_FFFE,
{
}

/// Scaling a span by `k / d` with `k <= d` keeps the product bounded
/// and the quotient within the span.
proof fn lemma_scale_bound(k: int, span: int, d: int)
    requires
        0 <= k <= d,
        0 < d <= 0x1_0000_0000,
        0 <= span <= 0x7FFF_FFFF_FFFF_FFFF,
    ensures
        0 <= k * span <= d * span,
        d * span <= 0x8000_0000_0000_0000_0000_0000,
        0 <= (k * span) / d <= span,
{
    assert(0 <= k * span <= d * span && d * span <= 0x8000_0000_0000_0000_0000_0000)
        by (nonlinear_arith)
        requires
            0 <= k <= d,
            0 < d <= 0x1_0000_0000,
            0 <= span <= 0x7FFF_FFFF_FFFF_FFFF,
    ;
    vstd::arithmetic::div_mod::lemma_div_pos_is_pos(k * span, d);
    vstd::arithmetic::div_mod::lemma_div_is_ordered(k * span, d * span, d);
    vstd::arithmetic::div_mod::lemma_div_multiples_vanish(span, d);
}

} // verus!
