use nbez::BevError;
use nbez::nbez::NBez;
use nbez::point::Point;
use nbez::point::Vector;
use nbez::rat::Rat;

fn rat(num: i64, den: i64) -> Rat {
    Rat { num, den }
}

fn pt(xn: i64, xd: i64, yn: i64, yd: i64) -> Point {
    Point { x: rat(xn, xd), y: rat(yn, yd) }
}

/// Value equality against `n / d`, by cross multiplication.
fn is_value(a: Rat, n: i64, d: i64) -> bool {
    (a.num as i128) * (d as i128) == (n as i128) * (a.den as i128)
}

fn same_value(a: Rat, b: Rat) -> bool {
    (a.num as i128) * (b.den as i128) == (b.num as i128) * (a.den as i128)
}

fn cubic() -> NBez {
    NBez::from_container(vec![
        pt(0, 1, 0, 1),
        pt(1, 2, 2, 1),
        pt(3, 1, 4, 3),
        pt(5, 1, -6, 1),
    ])
    .unwrap()
}

#[test]
fn interp_at_zero_is_first_point() {
    let mut c = cubic();
    let p = c.interp(rat(0, 1)).unwrap();
    assert!(is_value(p.x, 0, 1));
    assert!(is_value(p.y, 0, 1));
}

#[test]
fn interp_at_one_is_last_point() {
    let mut c = cubic();
    let p = c.interp(rat(1, 1)).unwrap();
    assert!(is_value(p.x, 5, 1));
    assert!(is_value(p.y, -6, 1));
}

#[test]
fn interp_endpoints_with_non_canonical_t() {
    // 0/3 and 2/2 name the endpoints just as 0/1 and 1/1 do.
    let mut c = cubic();
    let p0 = c.interp(rat(0, 3)).unwrap();
    assert!(is_value(p0.x, 0, 1));
    let p1 = c.interp(rat(2, 2)).unwrap();
    assert!(is_value(p1.x, 5, 1));
}

#[test]
fn interp_linear_midpoint() {
    let mut c = NBez::from_container(vec![pt(0, 1, 0, 1), pt(2, 1, 2, 1)]).unwrap();
    let p = c.interp(rat(1, 2)).unwrap();
    assert!(is_value(p.x, 1, 1));
    assert!(is_value(p.y, 1, 1));
}

#[test]
fn interp_quadratic_known_value() {
    // y components 0, 2, 0: the Bernstein sum at 1/2 is 2 * (1/4) * 2 = 1.
    let mut c = NBez::from_container(vec![pt(0, 1, 0, 1), pt(1, 1, 2, 1), pt(2, 1, 0, 1)])
        .unwrap();
    let p = c.interp(rat(1, 2)).unwrap();
    assert!(is_value(p.x, 1, 1));
    assert!(is_value(p.y, 1, 1));
}

#[test]
fn interp_out_of_domain_is_domain_error() {
    let mut c = cubic();
    match c.interp(rat(2, 1)) {
        Err(BevError::DomainError) => (),
        _ => panic!("expected DomainError"),
    }
    match c.interp(rat(-1, 2)) {
        Err(BevError::DomainError) => (),
        _ => panic!("expected DomainError"),
    }
}

#[test]
fn interp_unbounded_extrapolates() {
    // Outside [0, 1] the unchecked query still returns a value:
    // on the line from (0,0) to (2,2), t = 2 extrapolates to (4,4).
    let mut c = NBez::from_container(vec![pt(0, 1, 0, 1), pt(2, 1, 2, 1)]).unwrap();
    let p = c.interp_unbounded(rat(2, 1)).unwrap();
    assert!(is_value(p.x, 4, 1));
    assert!(is_value(p.y, 4, 1));
}

#[test]
fn interp_value_overflow_is_reported() {
    let big = i64::MAX;
    let mut c = NBez::from_container(vec![pt(big, 1, 0, 1), pt(big, 1, 0, 1)]).unwrap();
    match c.interp(rat(1, 3)) {
        Err(BevError::ValueOverflow) => (),
        _ => panic!("expected ValueOverflow"),
    }
}

#[test]
fn construction_boundaries() {
    // Order 21 (22 points) succeeds; order 22 (23 points) overflows;
    // an empty sequence has no valid order.
    let pts21: Vec<Point> = (0..22).map(|i| pt(i, 1, i, 1)).collect();
    assert!(NBez::from_container(pts21).is_ok());
    let pts22: Vec<Point> = (0..23).map(|i| pt(i, 1, i, 1)).collect();
    match NBez::from_container(pts22) {
        Err(BevError::OrderOverflow) => (),
        _ => panic!("expected OrderOverflow"),
    }
    match NBez::from_container(Vec::new()) {
        Err(BevError::InvalidLength) => (),
        _ => panic!("expected InvalidLength"),
    }
}

#[test]
fn order_21_curve_evaluates_at_endpoints() {
    let pts: Vec<Point> = (0..22).map(|i| pt(i, 1, 2 * i, 1)).collect();
    let mut c = NBez::from_container(pts).unwrap();
    assert_eq!(c.order(), 21);
    let p0 = c.interp(rat(0, 1)).unwrap();
    assert!(is_value(p0.x, 0, 1));
    let p1 = c.interp(rat(1, 1)).unwrap();
    assert!(is_value(p1.x, 21, 1));
    assert!(is_value(p1.y, 42, 1));
}

#[test]
fn slope_of_line_is_constant() {
    let mut c = NBez::from_container(vec![pt(0, 1, 0, 1), pt(1, 1, 1, 1)]).unwrap();
    let v = c.slope(rat(1, 4)).unwrap();
    assert!(is_value(v.x, 1, 1));
    assert!(is_value(v.y, 1, 1));
    let v2 = c.slope(rat(3, 4)).unwrap();
    assert!(is_value(v2.x, 1, 1));
}

#[test]
fn slope_of_quadratic_at_zero() {
    // The derivative at 0 is 2 * (P_1 - P_0).
    let mut c = NBez::from_container(vec![pt(0, 1, 0, 1), pt(1, 1, 2, 1), pt(3, 1, 4, 1)])
        .unwrap();
    let v = c.slope(rat(0, 1)).unwrap();
    assert!(is_value(v.x, 2, 1));
    assert!(is_value(v.y, 4, 1));
}

#[test]
fn slope_of_constant_curve_is_zero() {
    let mut c = NBez::from_container(vec![pt(7, 2, 5, 3)]).unwrap();
    let v = c.slope_unbounded(rat(1, 2)).unwrap();
    assert!(is_value(v.x, 0, 1));
    assert!(is_value(v.y, 0, 1));
}

#[test]
fn slope_out_of_domain_is_domain_error() {
    let mut c = cubic();
    match c.slope(rat(3, 2)) {
        Err(BevError::DomainError) => (),
        _ => panic!("expected DomainError"),
    }
}

#[test]
fn elevation_keeps_the_curve_shape() {
    let mut c = cubic();
    let mut e = c.elevate().unwrap();
    assert_eq!(e.order(), 4);
    for (tn, td) in [(0i64, 1i64), (1, 2), (1, 3), (2, 3), (1, 1)] {
        let p = c.interp(rat(tn, td)).unwrap();
        let q = e.interp(rat(tn, td)).unwrap();
        assert!(same_value(p.x, q.x));
        assert!(same_value(p.y, q.y));
    }
}

#[test]
fn elevation_of_line_gives_midpoint_control() {
    let c = NBez::from_container(vec![pt(0, 1, 0, 1), pt(2, 1, 2, 1)]).unwrap();
    let e = c.elevate().unwrap();
    let pts = e.points();
    assert!(is_value(pts[0].x, 0, 1));
    assert!(is_value(pts[1].x, 1, 1));
    assert!(is_value(pts[1].y, 1, 1));
    assert!(is_value(pts[2].x, 2, 1));
}

#[test]
fn elevation_of_largest_order_overflows() {
    let pts: Vec<Point> = (0..22).map(|i| pt(i, 1, i, 1)).collect();
    let c = NBez::from_container(pts).unwrap();
    match c.elevate() {
        Err(BevError::OrderOverflow) => (),
        _ => panic!("expected OrderOverflow"),
    }
}

#[test]
fn split_is_not_supported() {
    let c = cubic();
    assert!(c.split(rat(1, 2)).is_none());
}

#[test]
fn points_can_be_rewritten_in_place() {
    let mut c = NBez::from_container(vec![pt(0, 1, 0, 1), pt(2, 1, 2, 1)]).unwrap();
    c.set_point(1, pt(4, 1, 4, 1));
    let p = c.interp(rat(1, 1)).unwrap();
    assert!(is_value(p.x, 4, 1));
    let back = c.unwrap();
    assert_eq!(back.len(), 2);
}

#[test]
fn vector_len_of_three_four_is_five() {
    let v = Vector { x: rat(3, 1), y: rat(4, 1) };
    let l = v.len().unwrap();
    assert!(is_value(l, 5, 1));
}

#[test]
fn vector_len_of_half_is_half() {
    let v = Vector { x: rat(1, 2), y: rat(0, 1) };
    let l = v.len().unwrap();
    assert!(is_value(l, 1, 2));
}

#[test]
fn vector_len_of_zero_is_zero() {
    let v = Vector { x: rat(0, 1), y: rat(0, 1) };
    let l = v.len().unwrap();
    assert!(is_value(l, 0, 1));
}

#[test]
fn normalize_three_four() {
    let v = Vector { x: rat(3, 1), y: rat(4, 1) };
    let n = v.normalize().unwrap();
    assert!(is_value(n.x, 3, 5));
    assert!(is_value(n.y, 4, 5));
}

#[test]
fn vector_and_point_algebra() {
    let p = pt(1, 2, 1, 3);
    let v = Vector { x: rat(1, 2), y: rat(2, 3) };
    let q = p.add(v).unwrap();
    assert!(is_value(q.x, 1, 1));
    assert!(is_value(q.y, 1, 1));
    let d = q.sub(p).unwrap();
    assert!(is_value(d.x, 1, 2));
    assert!(is_value(d.y, 2, 3));
    let s = v.mul(rat(2, 1)).unwrap();
    assert!(is_value(s.x, 1, 1));
    let h = v.div(rat(2, 1)).unwrap();
    assert!(is_value(h.x, 1, 4));
    let w = v.add(v).unwrap();
    assert!(is_value(w.x, 1, 1));
    let z = v.sub(v).unwrap();
    assert!(is_value(z.y, 0, 1));
}
