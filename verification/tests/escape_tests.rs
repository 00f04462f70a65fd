use mandelbrot::{escape_time, escape_time_limit, ComplexPoint, Fx, MAX_ITER};

#[test]
fn should_escape() {
    assert_eq!(
        escape_time(ComplexPoint::new(Fx::from_ratio(1, 2), Fx::from_int(0))),
        Some(4)
    );
    assert_eq!(
        escape_time(ComplexPoint::new(Fx::from_int(2), Fx::from_ratio(-1, 10))),
        Some(0)
    );
    assert_eq!(
        escape_time(ComplexPoint::new(Fx::from_int(-1), Fx::from_ratio(-2, 5))),
        Some(6)
    );
}

#[test]
fn should_not_escape() {
    assert_eq!(escape_time(ComplexPoint::zero()), None);
    assert_eq!(
        escape_time(ComplexPoint::new(Fx::from_int(-2), Fx::from_int(0))),
        None
    );
    assert_eq!(
        escape_time(ComplexPoint::new(Fx::from_int(0), Fx::from_ratio(1, 2))),
        None
    );
}

#[test]
fn main_should_escape() {
    assert_eq!(
        escape_time(ComplexPoint::new(Fx::from_ratio(1, 2), Fx::from_int(0))),
        Some(4)
    );
    assert_eq!(
        escape_time(ComplexPoint::new(Fx::from_int(2), Fx::from_ratio(-1, 10))),
        Some(0)
    );
    assert_eq!(
        escape_time(ComplexPoint::new(Fx::from_int(-1), Fx::from_ratio(-2, 5))),
        Some(6)
    );
}

#[test]
fn main_should_not_escape() {
    assert_eq!(escape_time(ComplexPoint::zero()), None);
    assert_eq!(
        escape_time(ComplexPoint::new(Fx::from_int(-2), Fx::from_int(0))),
        None
    );
    assert_eq!(
        escape_time(ComplexPoint::new(Fx::from_int(0), Fx::from_ratio(1, 2))),
        None
    );
}

#[test]
fn test_should_escape() {
    assert_eq!(
        escape_time(ComplexPoint::new(Fx::from_ratio(1, 2), Fx::from_int(0))),
        Some(4)
    );
    assert_eq!(
        escape_time(ComplexPoint::new(Fx::from_int(2), Fx::from_ratio(-1, 10))),
        Some(0)
    );
    assert_eq!(
        escape_time(ComplexPoint::new(Fx::from_int(-1), Fx::from_ratio(-2, 5))),
        Some(6)
    );
}

#[test]
fn test_should_not_escape() {
    assert_eq!(escape_time(ComplexPoint::zero()), None);
    assert_eq!(
        escape_time(ComplexPoint::new(Fx::from_int(-2), Fx::from_int(0))),
        None
    );
    assert_eq!(
        escape_time(ComplexPoint::new(Fx::from_int(0), Fx::from_ratio(1, 2))),
        None
    );
}

#[test]
fn escape_budget_is_a_parameter() {
    let c = ComplexPoint::new(Fx::from_ratio(1, 2), Fx::from_int(0));
    assert_eq!(escape_time_limit(c, 0), None);
    assert_eq!(escape_time_limit(c, 4), None);
    assert_eq!(escape_time_limit(c, 5), Some(4));
    assert_eq!(escape_time_limit(c, MAX_ITER), Some(4));
    assert_eq!(MAX_ITER, 255);
}

#[test]
fn escape_boundary_point_stays() {
    // -2 + 0i sits on the boundary: its orbit reaches norm exactly 4,
    // never above it.
    let c = ComplexPoint::new(Fx::from_int(-2), Fx::from_int(0));
    assert_eq!(escape_time_limit(c, 1), None);
    assert_eq!(escape_time(c), None);
}
