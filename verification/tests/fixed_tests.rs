use nbez::BevError;
use nbez::fixed::BezCube;
use nbez::fixed::BezCubePoly;
use nbez::nbez::NBez;
use nbez::rat::Rat;

fn rat(num: i64, den: i64) -> Rat {
    Rat { num, den }
}

fn same_value(a: Rat, b: Rat) -> bool {
    (a.num as i128) * (b.den as i128) == (b.num as i128) * (a.den as i128)
}

fn is_value(a: Rat, n: i64, d: i64) -> bool {
    (a.num as i128) * (d as i128) == (n as i128) * (a.den as i128)
}

fn sample_cube() -> BezCube {
    BezCube::new(
        BezCubePoly::new(rat(0, 1), rat(1, 2), rat(3, 1), rat(5, 1)),
        BezCubePoly::new(rat(0, 1), rat(2, 1), rat(4, 3), rat(-6, 1)),
    )
}

#[test]
fn cube_poly_endpoints() {
    let p = BezCubePoly::new(rat(1, 2), rat(3, 1), rat(4, 1), rat(7, 3));
    let at0 = p.interp(rat(0, 1)).unwrap();
    assert!(is_value(at0, 1, 2));
    let at1 = p.interp(rat(1, 1)).unwrap();
    assert!(is_value(at1, 7, 3));
}

#[test]
fn cube_poly_domain_error() {
    let p = BezCubePoly::new(rat(0, 1), rat(1, 1), rat(2, 1), rat(3, 1));
    match p.interp(rat(5, 4)) {
        Err(BevError::DomainError) => (),
        _ => panic!("expected DomainError"),
    }
    assert!(p.interp_unbounded(rat(5, 4)).is_some());
}

#[test]
fn cube_poly_slope_at_zero() {
    // The cubic derivative at 0 is 3 * (ctrl0 - start).
    let p = BezCubePoly::new(rat(0, 1), rat(1, 1), rat(2, 1), rat(3, 1));
    let s = p.slope(rat(0, 1)).unwrap();
    assert!(is_value(s, 3, 1));
}

#[test]
fn fixed_and_generic_interp_agree() {
    let cube = sample_cube();
    let mut generic = NBez::from_container(cube.points()).unwrap();
    for (tn, td) in [(0i64, 1i64), (1, 4), (1, 2), (3, 4), (1, 1)] {
        let a = cube.interp(rat(tn, td)).unwrap();
        let b = generic.interp(rat(tn, td)).unwrap();
        assert!(same_value(a.x, b.x));
        assert!(same_value(a.y, b.y));
    }
}

#[test]
fn fixed_and_generic_slope_agree() {
    let cube = sample_cube();
    let mut generic = NBez::from_container(cube.points()).unwrap();
    for (tn, td) in [(0i64, 1i64), (1, 3), (1, 2), (1, 1)] {
        let a = cube.derivative(rat(tn, td)).unwrap();
        let b = generic.slope(rat(tn, td)).unwrap();
        assert!(same_value(a.x, b.x));
        assert!(same_value(a.y, b.y));
    }
}

#[test]
fn cube_domain_error() {
    let cube = sample_cube();
    match cube.interp(rat(-1, 1)) {
        Err(BevError::DomainError) => (),
        _ => panic!("expected DomainError"),
    }
    match cube.derivative(rat(2, 1)) {
        Err(BevError::DomainError) => (),
        _ => panic!("expected DomainError"),
    }
}

#[test]
fn cube_flat_view_holds_the_four_points() {
    let cube = sample_cube();
    let pts = cube.points();
    assert_eq!(pts.len(), 4);
    assert!(is_value(pts[0].x, 0, 1));
    assert!(is_value(pts[1].x, 1, 2));
    assert!(is_value(pts[1].y, 2, 1));
    assert!(is_value(pts[3].y, -6, 1));
}
