use nbez::coeff::RangeSlice;
use nbez::coeff::combination;
use nbez::coeff::factorial;

#[test]
fn factorial_of_zero_is_one() {
    assert_eq!(factorial(0), 1);
}

#[test]
fn factorial_small_values() {
    assert_eq!(factorial(1), 1);
    assert_eq!(factorial(5), 120);
    assert_eq!(factorial(10), 3628800);
}

#[test]
fn factorial_largest_exact() {
    assert_eq!(factorial(20), 2432902008176640000);
}

#[test]
fn combination_small_values() {
    assert_eq!(combination(0, 0), 1);
    assert_eq!(combination(5, 0), 1);
    assert_eq!(combination(5, 2), 10);
    assert_eq!(combination(5, 5), 1);
    assert_eq!(combination(6, 3), 20);
}

#[test]
fn combination_of_largest_curve_order() {
    assert_eq!(combination(21, 10), 352716);
    assert_eq!(combination(21, 0), 1);
    assert_eq!(combination(21, 21), 1);
}

#[test]
fn combination_symmetry_concrete() {
    assert_eq!(combination(10, 3), combination(10, 7));
    assert_eq!(combination(21, 4), combination(21, 17));
    assert_eq!(combination(13, 0), combination(13, 13));
}

#[test]
fn combination_matches_factorial_formula() {
    for n in 0..=10u64 {
        for k in 0..=n {
            let byfact = factorial(n) / (factorial(k) * factorial(n - k));
            assert_eq!(combination(n, k), byfact);
        }
    }
}

#[test]
fn range_slice_roundtrip() {
    let rs = RangeSlice::new(3, 9);
    assert_eq!(rs.len(), 6);
    let r = rs.as_range();
    assert_eq!(r.start, 3);
    assert_eq!(r.end, 9);
}
