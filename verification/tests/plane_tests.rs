use mandelbrot::{ComplexPoint, Dimen, Fx, RenderError};

#[test]
fn coord_trans() {
    let d = Dimen::new(
        80,
        40,
        ComplexPoint::new(Fx::from_int(-1), Fx::from_int(-1)),
        ComplexPoint::new(Fx::from_int(1), Fx::from_int(1)),
    )
    .unwrap();
    assert_eq!(
        d.px2complex(20, 30),
        ComplexPoint::new(Fx::from_ratio(-1, 2), Fx::from_ratio(-1, 2))
    );
}

#[test]
fn main_coord_trans() {
    let d = Dimen::new(
        80,
        40,
        ComplexPoint::new(Fx::from_int(-1), Fx::from_int(-1)),
        ComplexPoint::new(Fx::from_int(1), Fx::from_int(1)),
    )
    .unwrap();
    assert_eq!(
        d.px2complex(20, 30),
        ComplexPoint::new(Fx::from_ratio(-1, 2), Fx::from_ratio(-1, 2))
    );
}

#[test]
fn test_px2complex() {
    let d = Dimen::new(
        80,
        40,
        ComplexPoint::new(Fx::from_int(-1), Fx::from_int(-1)),
        ComplexPoint::new(Fx::from_int(1), Fx::from_int(1)),
    )
    .unwrap();
    assert_eq!(
        d.px2complex(20, 30),
        ComplexPoint::new(Fx::from_ratio(-1, 2), Fx::from_ratio(-1, 2))
    );
}

#[test]
fn px2complex_top_row_is_window_top() {
    let d = Dimen::new(
        4,
        4,
        ComplexPoint::new(Fx::from_int(-1), Fx::from_int(-1)),
        ComplexPoint::new(Fx::from_int(1), Fx::from_int(1)),
    )
    .unwrap();
    // Row 0 maps to the top edge of the window, column 0 to its left edge.
    assert_eq!(
        d.px2complex(0, 0),
        ComplexPoint::new(Fx::from_int(-1), Fx::from_int(1))
    );
    assert_eq!(
        d.px2complex(2, 2),
        ComplexPoint::new(Fx::from_int(0), Fx::from_int(0))
    );
}

#[test]
fn fx_values_are_exact() {
    assert_eq!(Fx::from_int(0).bits, 0);
    assert_eq!(Fx::from_int(1).bits, 0x1_0000_0000);
    assert_eq!(Fx::from_int(-2).bits, -0x2_0000_0000);
    assert_eq!(Fx::from_ratio(1, 2).bits, 0x8000_0000);
    assert_eq!(Fx::from_ratio(-1, 2).bits, -0x8000_0000);
    // Truncation toward zero: -1/10 rounds up toward zero.
    assert_eq!(Fx::from_ratio(-1, 10).bits, -429496729);
    assert_eq!(Fx::from_ratio(1, 10).bits, 429496729);
}

#[test]
fn degenerate_window_is_config_error() {
    let bl = ComplexPoint::new(Fx::from_int(-1), Fx::from_int(-1));
    let tr = ComplexPoint::new(Fx::from_int(1), Fx::from_int(1));
    assert_eq!(Dimen::new(0, 40, bl, tr).unwrap_err(), RenderError::ConfigError);
    assert_eq!(Dimen::new(80, 0, bl, tr).unwrap_err(), RenderError::ConfigError);
    // Inverted on the real axis.
    assert_eq!(Dimen::new(80, 40, tr, bl).unwrap_err(), RenderError::ConfigError);
    // Degenerate: equal corners.
    assert_eq!(Dimen::new(80, 40, bl, bl).unwrap_err(), RenderError::ConfigError);
    // Inverted on the imaginary axis only.
    let tr_low = ComplexPoint::new(Fx::from_int(1), Fx::from_int(-2));
    assert_eq!(
        Dimen::new(80, 40, bl, tr_low).unwrap_err(),
        RenderError::ConfigError
    );
    // A corner outside the representable range.
    let far = ComplexPoint::new(Fx::from_int(100), Fx::from_int(1));
    assert_eq!(Dimen::new(80, 40, bl, far).unwrap_err(), RenderError::ConfigError);
}
