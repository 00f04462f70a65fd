//! The row renderer, the sequential renderer, and the reassembly of
//! independently computed rows into one row-major buffer.

use vstd::prelude::*;

use crate::complex::ComplexPoint;
use crate::errors::RenderError;
use crate::escape::{escape_time, escape_time_spec, MAX_ITER};
use crate::plane::{valid_config, window_spec, Dimen};

verus! {

/// Luminance of an escape result: a point that escaped after `n`
/// iterations maps to `255 - n` (brighter the sooner it escaped); an
/// interior point maps to 0.
pub open spec fn luminance_spec(t: Option<nat>) -> u8 {
    match t {
        Some(n) => (255 - n) as u8,
        None => 0u8,
    }
}

/// The luminance of the pixel at column `x`, row `y` under window `d`.
pub open spec fn pixel_spec(d: Dimen, x: int, y: int) -> u8 {
    luminance_spec(escape_time_spec(d.point_re(x), d.point_im(y), MAX_ITER as nat))
}

/// One image row: the luminances of row `y`, left to right.
pub open spec fn row_spec(d: Dimen, y: int) -> Seq<u8> {
    Seq::new(d.width as nat, |x: int| pixel_spec(d, x, y))
}

/// The whole image: `width * height` luminances, row-major, top row
/// first.
pub open spec fn render_buf_spec(d: Dimen) -> Seq<u8> {
    Seq::new(
        (d.width * d.height) as nat,
        |i: int| pixel_spec(d, i % (d.width as int), i / (d.width as int)),
    )
}

/// Applies the luminance mapping to an escape result.
pub fn luminance(t: Option<u8>) -> (r: u8)
    ensures
        match t {
            Some(i) => r == 255 - i,
            None => r == 0,
        },
{
    match t {
        Some(i) => 255 - i,
        None => 0,
    }
}

/// Renders one full image row: for each column, map the pixel to the
/// plane, evaluate its escape time, and apply the luminance mapping.
/// A pure function of `(d, y)`, free of shared state, so distinct rows
/// can be computed in any order or concurrently.
pub fn render_line(d: &Dimen, y: u32) -> (r: Vec<u8>)
    requires
        d.wf(),
        y < d.height,
    ensures
        r@.len() == d.width,
        r@ == row_spec(*d, y as int),
{
    let mut row: Vec<u8> = Vec::new();
    let mut x: u32 = 0;
    while x < d.width
        invariant
            d.wf(),
            y < d.height,
            x <= d.width,
            row@.len() == x,
            forall|k: int| 0 <= k < x as int ==> row@[k] == pixel_spec(*d, k, y as int),
        decreases d.width - x,
    {
        let p: ComplexPoint = d.px2complex(x, y);
        let t: Option<u8> = escape_time(p);
        let l: u8 = luminance(t);
        row.push(l);
        x = x + 1;
    }
    assert(row@ =~= row_spec(*d, y as int));
    row
}

/// Renders the Mandelbrot set over the given window as a grayscale
/// image: a flat buffer of `width * height` luminance values in
/// row-major order, top row first.
///
/// Fails with `ConfigError` — before any pixel work — exactly when the
/// configuration is invalid: a zero dimension, a corner out of range,
/// a degenerate or inverted window, or an image too large for memory.
/// Pure computation: no I/O, no retries, no partial output.
pub fn render(width: u32, height: u32, bot_left: ComplexPoint, top_right: ComplexPoint) -> (r:
    Result<Vec<u8>, RenderError>)
    ensures
        match r {
            Ok(buf) => {
                &&& valid_config(width, height, bot_left, top_right)
                &&& buf@.len() == width * height
                &&& buf@ == render_buf_spec(window_spec(width, height, bot_left, top_right))
            },
            Err(e) => {
                &&& !valid_config(width, height, bot_left, top_right)
                &&& e == RenderError::ConfigError
            },
        },
{
    let d: Dimen = match Dimen::new(width, height, bot_left, top_right) {
        Ok(d) => d,
        Err(e) => {
            return Err(e);
        },
    };
    let ghost gd = window_spec(width, height, bot_left, top_right);
    let mut buf: Vec<u8> = Vec::new();
    let mut y: u32 = 0;
    while y < d.height
        invariant
            d.wf(),
            d == gd,
            y <= d.height,
            buf@.len() == y as int * d.width as int,
            forall|i: int| 0 <= i < buf@.len() ==> buf@[i] == pixel_spec(
                d,
                i % (d.width as int),
                i / (d.width as int),
            ),
        decreases d.height - y,
    {
        let ghost old_len = buf@.len() as int;
        let mut row: Vec<u8> = render_line(&d, y);
        buf.append(&mut row);
        proof {
            let w = d.width as int;
            assert forall|i: int| 0 <= i < buf@.len() implies buf@[i] == pixel_spec(
                d,
                i % w,
                i / w,
            ) by {
                if i >= old_len {
                    let x = i - old_len;
                    lemma_row_major(y as int, x, w);
                    assert(buf@[i] == row_spec(d, y as int)[x]);
                }
            }
            assert((y as int + 1) * w == y as int * w + w) by (nonlinear_arith);
        }
        y = y + 1;
    }
    proof {
        assert(buf@.len() == d.height as int * d.width as int);
        assert(d.height as int * d.width as int == d.width as int * d.height as int)
            by (nonlinear_arith);
        assert(buf@ =~= render_buf_spec(d));
    }
    Ok(buf)
}

/// An index-tagged row, as a worker of the parallel driver hands it
/// back: the row's pixels, each exactly `width` long, labelled with
/// the row index so reassembly never depends on completion order.
pub struct RowResult {
    pub index: u32,
    pub pixels: Vec<u8>,
}

/// Some collected row carries the index `y`.
pub open spec fn covers(rows: Seq<RowResult>, y: int) -> bool {
    exists|k: int| 0 <= k < rows.len() && (#[trigger] rows[k]).index == y
}

/// The collected rows cover the image exactly once: every index below
/// `height` appears, no index appears twice, none is out of range, and
/// every row is exactly `width` long.
pub open spec fn complete_rows(rows: Seq<RowResult>, d: Dimen) -> bool {
    &&& forall|k: int|
        0 <= k < rows.len() ==> (#[trigger] rows[k]).index < d.height && rows[k].pixels@.len()
            == d.width
    &&& forall|k1: int, k2: int|
        0 <= k1 < k2 < rows.len() ==> (#[trigger] rows[k1]).index != (#[trigger] rows[k2]).index
    &&& forall|y: int| 0 <= y < d.height ==> #[trigger] covers(rows, y)
}

/// Row-major index arithmetic: the flat position `y * w + x` of a cell
/// decomposes back into its row and column.
pub proof fn lemma_row_major(y: int, x: int, w: int)
    requires
        0 <= y,
        0 <= x < w,
    ensures
        (y * w + x) / w == y,
        (y * w + x) % w == x,
{
    vstd::arithmetic::div_mod::lemma_fundamental_div_mod_converse_div(y * w + x, w, y, x);
    vstd::arithmetic::div_mod::lemma_fundamental_div_mod_converse_mod(y * w + x, w, y, x);
}

/// A cell of one row lies entirely outside the slot of any other row.
proof fn lemma_other_row_outside(y1: int, x1: int, y2: int, w: int)
    by (nonlinear_arith)
    requires
        0 <= y1,
        0 <= y2,
        y1 != y2,
        0 <= x1 < w,
    ensures
        y1 * w + x1 < y2 * w || y1 * w + x1 >= y2 * w + w,
{
}

/// A cell of a row below `h` lies within the `w * h` buffer.
proof fn lemma_cell_in_bounds(y: int, x: int, w: int, h: int)
    by (nonlinear_arith)
    requires
        0 <= y < h,
        0 <= x < w,
    ensures
        0 <= y * w + x < w * h,
{
}

/// Reassembles index-tagged rows into the final row-major buffer,
/// copying each row into its own disjoint slot; the result does not
/// depend on the order the rows arrived in. Fails with
/// `ChannelClosedUnexpectedly` — the distributor's internal-invariant
/// error — exactly when the rows do not cover the image once each:
/// an index out of range or repeated, a row of the wrong length, or a
/// missing row.
pub fn assemble_rows(d: &Dimen, rows: Vec<RowResult>) -> (r: Result<Vec<u8>, RenderError>)
    requires
        d.wf(),
    ensures
        match r {
            Ok(buf) => {
                &&& complete_rows(rows@, *d)
                &&& buf@.len() == d.width * d.height
                &&& forall|k: int, x: int|
                    0 <= k < rows@.len() && 0 <= x < d.width as int ==> buf@[rows@[k].index as int
                        * d.width as int + x] == #[trigger] rows@[k].pixels@[x]
            },
            Err(e) => {
                &&& !complete_rows(rows@, *d)
                &&& e == RenderError::ChannelClosedUnexpectedly
            },
        },
{
    let w: usize = d.width as usize;
    let h: usize = d.height as usize;
    let total: usize = w * h;
    let mut buf: Vec<u8> = Vec::new();
    while buf.len() < total
        invariant
            buf@.len() <= total,
        decreases total - buf@.len(),
    {
        buf.push(0);
    }
    let mut seen: Vec<bool> = Vec::new();
    while seen.len() < h
        invariant
            seen@.len() <= h,
            forall|y: int| 0 <= y < seen@.len() ==> !seen@[y],
        decreases h - seen@.len(),
    {
        seen.push(false);
    }
    let mut k: usize = 0;
    while k < rows.len()
        invariant
            d.wf(),
            w == d.width,
            h == d.height,
            total == w * h,
            k <= rows@.len(),
            buf@.len() == total,
            seen@.len() == h,
            forall|k1: int|
                0 <= k1 < k as int ==> (#[trigger] rows@[k1]).index < d.height
                    && rows@[k1].pixels@.len() == d.width,
            forall|k1: int, k2: int|
                0 <= k1 < k2 < k as int ==> (#[trigger] rows@[k1]).index != (
                #[trigger] rows@[k2]).index,
            forall|y: int|
                0 <= y < h ==> (#[trigger] seen@[y] <==> exists|k1: int|
                    0 <= k1 < k as int && (#[trigger] rows@[k1]).index == y),
            forall|k1: int, x: int|
                0 <= k1 < k as int && 0 <= x < w ==> buf@[rows@[k1].index as int * (w as int) + x]
                    == #[trigger] rows@[k1].pixels@[x],
        decreases rows@.len() - k,
    {
        let row: &RowResult = &rows[k];
        if row.index >= d.height {
            return Err(RenderError::ChannelClosedUnexpectedly);
        }
        if row.pixels.len() != w {
            return Err(RenderError::ChannelClosedUnexpectedly);
        }
        let idx: usize = row.index as usize;
        if seen[idx] {
            proof {
                let k1 = choose|k1: int|
                    0 <= k1 < k as int && (#[trigger] rows@[k1]).index == idx as int;
                assert(rows@[k1].index == rows@[k as int].index);
            }
            return Err(RenderError::ChannelClosedUnexpectedly);
        }
        seen[idx] = true;
        let ghost pre_buf = buf@;
        let mut x: usize = 0;
        while x < w
            invariant
                d.wf(),
                w == d.width,
                h == d.height,
                total == w * h,
                k < rows@.len(),
                idx == rows@[k as int].index,
                idx < h,
                rows@[k as int].pixels@.len() == w,
                x <= w,
                buf@.len() == total,
                forall|x1: int|
                    0 <= x1 < x as int ==> buf@[idx as int * w as int + x1]
                        == rows@[k as int].pixels@[x1],
                forall|i: int|
                    0 <= i < total && (i < idx as int * w as int || i >= idx as int * w as int
                        + x as int) ==> buf@[i] == pre_buf[i],
            decreases w - x,
        {
            proof {
                lemma_cell_in_bounds(idx as int, x as int, w as int, h as int);
            }
            let pos: usize = idx * w + x;
            buf[pos] = rows[k].pixels[x];
            x = x + 1;
        }
        proof {
            assert forall|k1: int, x1: int|
                0 <= k1 < (k + 1) as int && 0 <= x1 < w implies buf@[rows@[k1].index as int * (
            w as int) + x1] == #[trigger] rows@[k1].pixels@[x1] by {
                if k1 < k as int {
                    assert(rows@[k1].index != idx as int);
                    lemma_other_row_outside(rows@[k1].index as int, x1, idx as int, w as int);
                    lemma_cell_in_bounds(rows@[k1].index as int, x1, w as int, h as int);
                    assert(buf@[rows@[k1].index as int * w as int + x1] == pre_buf[rows@[k1].index
                        as int * w as int + x1]);
                }
            }
        }
        k = k + 1;
    }
    let mut y: usize = 0;
    while y < h
        invariant
            w == d.width,
            h == d.height,
            seen@.len() == h,
            y <= h,
            forall|y1: int|
                0 <= y1 < h ==> (#[trigger] seen@[y1] <==> exists|k1: int|
                    0 <= k1 < rows@.len() && (#[trigger] rows@[k1]).index == y1),
            forall|y1: int| 0 <= y1 < y as int ==> covers(rows@, y1),
        decreases h - y,
    {
        if !seen[y] {
            proof {
                assert(!covers(rows@, y as int));
            }
            return Err(RenderError::ChannelClosedUnexpectedly);
        }
        y = y + 1;
    }
    Ok(buf)
}

/// Law: reassembly is order-independent. Any collection of rows that
/// covers the image exactly once, with each row computed as the row
/// renderer computes it, assembles to exactly the buffer the
/// sequential renderer produces — whichever worker computed which row
/// and in whatever order the results arrived.
pub proof fn lemma_assembly_matches_sequential(d: Dimen, rows: Seq<RowResult>, buf: Seq<u8>)
    requires
        d.wf(),
        complete_rows(rows, d),
        forall|k: int|
            0 <= k < rows.len() ==> (#[trigger] rows[k]).pixels@ == row_spec(
                d,
                rows[k].index as int,
            ),
        buf.len() == d.width * d.height,
        forall|k: int, x: int|
            0 <= k < rows.len() && 0 <= x < d.width as int ==> buf[rows[k].index as int
                * d.width as int + x] == #[trigger] rows[k].pixels@[x],
    ensures
        buf == render_buf_spec(d),
{
    let w = d.width as int;
    let h = d.height as int;
    assert forall|i: int| 0 <= i < buf.len() implies buf[i] == render_buf_spec(d)[i] by {
        vstd::arithmetic::div_mod::lemma_fundamental_div_mod(i, w);
        vstd::arithmetic::div_mod::lemma_mod_division_less_than_divisor(i, w);
        let y = i / w;
        let x = i % w;
        assert(0 <= y) by {
            vstd::arithmetic::div_mod::lemma_div_pos_is_pos(i, w);
        }
        assert(y < h) by {
            if y >= h {
                assert(i == w * y + x);
                assert(w * y >= w * h) by (nonlinear_arith)
                    requires
                        y >= h,
                        w > 0,
                ;
                assert(w * h == d.width * d.height) by (nonlinear_arith)
                    requires
                        w == d.width,
                        h == d.height,
                ;
            }
        }
        assert(covers(rows, y));
        let k = choose|k: int| 0 <= k < rows.len() && (#[trigger] rows[k]).index == y;
        assert(i == y * w + x) by (nonlinear_arith)
            requires
                i == w * y + x,
        ;
        assert(buf[i] == rows[k].pixels@[x]);
        assert(rows[k].pixels@[x] == pixel_spec(d, x, y));
    }
    assert(buf =~= render_buf_spec(d));
}

/// Law: rendering is deterministic. The contract of `render` pins the
/// buffer to a function of the parameters alone, so any two buffers
/// satisfying it for identical parameters are byte-identical.
pub proof fn lemma_render_deterministic(
    width: u32,
    height: u32,
    bot_left: ComplexPoint,
    top_right: ComplexPoint,
    buf1: Seq<u8>,
    buf2: Seq<u8>,
)
    requires
        buf1 == render_buf_spec(window_spec(width, height, bot_left, top_right)),
        buf2 == render_buf_spec(window_spec(width, height, bot_left, top_right)),
    ensures
        buf1 == buf2,
{
}

} // verus!
