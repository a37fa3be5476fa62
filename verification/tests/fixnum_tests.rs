use milla::fixnum::{Fix, FIX_SCALE};

fn fx(v: f64) -> Fix {
    Fix::of((v * 10000.0).round() as i64)
}

#[test]
fn arithmetic_basics() {
    assert_eq!(fx(1.5).add(fx(2.25)), fx(3.75));
    assert_eq!(fx(1.5).sub(fx(2.0)), fx(-0.5));
    assert_eq!(fx(2.5).mul(fx(4.0)), fx(10.0));
    assert_eq!(fx(10.0).div(fx(4.0)), fx(2.5));
    assert_eq!(fx(-3.0).abs(), fx(3.0));
    assert_eq!(fx(-3.0).neg(), fx(3.0));
    assert_eq!(fx(2.0).min(fx(5.0)), fx(2.0));
    assert_eq!(fx(2.0).max(fx(5.0)), fx(5.0));
    assert!(fx(1.0).lt(fx(2.0)));
    assert!(fx(2.0).ge(fx(2.0)));
}

#[test]
fn division_by_zero_is_non_finite() {
    let r = fx(1.0).div(fx(0.0));
    assert!(!r.is_finite());
}

#[test]
fn overflow_is_non_finite() {
    let big = Fix::of(i64::MAX);
    assert!(!big.add(big).is_finite());
    assert!(!big.mul(big).is_finite());
}

#[test]
fn non_finite_propagates_and_never_compares() {
    let nan = Fix::non_finite();
    assert!(!nan.add(fx(1.0)).is_finite());
    assert!(!fx(1.0).sub(nan).is_finite());
    assert!(!nan.lt(fx(1.0)));
    assert!(!nan.ge(fx(1.0)));
    // min and max fall back to the finite operand
    assert_eq!(nan.min(fx(7.0)), fx(7.0));
    assert_eq!(fx(7.0).max(nan), fx(7.0));
}

#[test]
fn multiplication_rounds_toward_negative_infinity() {
    // 0.0001 * 0.5 is half a raw unit; it floors down, not toward zero.
    let tiny = Fix::of(1);
    assert_eq!(tiny.mul(fx(0.5)), Fix::of(0));
    assert_eq!(tiny.neg().mul(fx(0.5)), Fix::of(-1));
    assert_eq!(FIX_SCALE, 10000);
}
