use mandelbrot::{
    assemble_rows, escape_time, luminance, render, render_line, ComplexPoint, Dimen, Fx,
    RenderError, RowResult,
};

#[test]
fn luminance_mapping() {
    assert_eq!(luminance(Some(0)), 255);
    assert_eq!(luminance(Some(4)), 251);
    assert_eq!(luminance(Some(254)), 1);
    assert_eq!(luminance(None), 0);
}

#[test]
fn render_length_is_width_times_height() {
    let bl = ComplexPoint::new(Fx::from_int(-2), Fx::from_int(-1));
    let tr = ComplexPoint::new(Fx::from_int(1), Fx::from_int(1));
    assert_eq!(render(7, 5, bl, tr).unwrap().len(), 35);
    assert_eq!(render(1, 1, bl, tr).unwrap().len(), 1);
    assert_eq!(render(16, 3, bl, tr).unwrap().len(), 48);
}

#[test]
fn render_rejects_invalid_geometry() {
    let bl = ComplexPoint::new(Fx::from_int(-1), Fx::from_int(-1));
    let tr = ComplexPoint::new(Fx::from_int(1), Fx::from_int(1));
    assert_eq!(render(0, 40, bl, tr).unwrap_err(), RenderError::ConfigError);
    assert_eq!(render(80, 0, bl, tr).unwrap_err(), RenderError::ConfigError);
    // bottom_left.re >= top_right.re
    assert_eq!(render(80, 40, tr, bl).unwrap_err(), RenderError::ConfigError);
    assert_eq!(render(80, 40, bl, bl).unwrap_err(), RenderError::ConfigError);
}

#[test]
fn render_is_deterministic() {
    let bl = ComplexPoint::new(Fx::from_ratio(-3, 2), Fx::from_int(-1));
    let tr = ComplexPoint::new(Fx::from_ratio(1, 2), Fx::from_int(1));
    let a = render(9, 7, bl, tr).unwrap();
    let b = render(9, 7, bl, tr).unwrap();
    assert_eq!(a, b);
}

#[test]
fn golden_4x4_corners() {
    let bl = ComplexPoint::new(Fx::from_int(-1), Fx::from_int(-1));
    let tr = ComplexPoint::new(Fx::from_int(1), Fx::from_int(1));
    let buf = render(4, 4, bl, tr).unwrap();
    assert_eq!(buf.len(), 16);
    let d = Dimen::new(4, 4, bl, tr).unwrap();
    for (x, y) in [(0u32, 0u32), (3, 0), (0, 3), (3, 3)] {
        let expected = luminance(escape_time(d.px2complex(x, y)));
        assert_eq!(buf[(y * 4 + x) as usize], expected);
    }
    // The centre pixel maps to the origin, an interior point: luminance 0.
    assert_eq!(buf[(2 * 4 + 2) as usize], 0);
}

#[test]
fn assembly_matches_sequential_in_any_order() {
    let bl = ComplexPoint::new(Fx::from_int(-2), Fx::from_int(-1));
    let tr = ComplexPoint::new(Fx::from_int(1), Fx::from_int(1));
    let d = Dimen::new(8, 6, bl, tr).unwrap();
    let sequential = render(8, 6, bl, tr).unwrap();

    // Rows completed in reverse order.
    let mut reversed: Vec<RowResult> = Vec::new();
    for y in (0..6u32).rev() {
        reversed.push(RowResult { index: y, pixels: render_line(&d, y) });
    }
    assert_eq!(assemble_rows(&d, reversed).unwrap(), sequential);

    // Rows completed in an interleaved order, as two workers might.
    let mut interleaved: Vec<RowResult> = Vec::new();
    for y in [1u32, 4, 0, 5, 2, 3] {
        interleaved.push(RowResult { index: y, pixels: render_line(&d, y) });
    }
    assert_eq!(assemble_rows(&d, interleaved).unwrap(), sequential);
}

#[test]
fn assembly_rejects_incomplete_rows() {
    let bl = ComplexPoint::new(Fx::from_int(-1), Fx::from_int(-1));
    let tr = ComplexPoint::new(Fx::from_int(1), Fx::from_int(1));
    let d = Dimen::new(4, 3, bl, tr).unwrap();

    // A missing row.
    let mut missing: Vec<RowResult> = Vec::new();
    for y in [0u32, 2] {
        missing.push(RowResult { index: y, pixels: render_line(&d, y) });
    }
    assert_eq!(
        assemble_rows(&d, missing).unwrap_err(),
        RenderError::ChannelClosedUnexpectedly
    );

    // A duplicated row index.
    let mut duplicated: Vec<RowResult> = Vec::new();
    for y in [0u32, 1, 1] {
        duplicated.push(RowResult { index: y, pixels: render_line(&d, y) });
    }
    assert_eq!(
        assemble_rows(&d, duplicated).unwrap_err(),
        RenderError::ChannelClosedUnexpectedly
    );

    // A row index out of range.
    let mut out_of_range: Vec<RowResult> = Vec::new();
    for y in [0u32, 1, 2] {
        out_of_range.push(RowResult { index: y, pixels: render_line(&d, y) });
    }
    out_of_range[2].index = 7;
    assert_eq!(
        assemble_rows(&d, out_of_range).unwrap_err(),
        RenderError::ChannelClosedUnexpectedly
    );

    // A row of the wrong length.
    let mut short: Vec<RowResult> = Vec::new();
    for y in [0u32, 1, 2] {
        short.push(RowResult { index: y, pixels: render_line(&d, y) });
    }
    short[1].pixels.pop();
    assert_eq!(
        assemble_rows(&d, short).unwrap_err(),
        RenderError::ChannelClosedUnexpectedly
    );
}

#[test]
fn render_line_matches_render_rows() {
    let bl = ComplexPoint::new(Fx::from_int(-2), Fx::from_int(-1));
    let tr = ComplexPoint::new(Fx::from_int(1), Fx::from_int(1));
    let d = Dimen::new(5, 4, bl, tr).unwrap();
    let buf = render(5, 4, bl, tr).unwrap();
    for y in 0..4u32 {
        let row = render_line(&d, y);
        assert_eq!(row.len(), 5);
        assert_eq!(&buf[(y * 5) as usize..((y + 1) * 5) as usize], &row[..]);
    }
}
