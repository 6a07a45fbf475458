use extrema_guard::number::{Float64, Formula, HUNDRED, ONE};
use extrema_guard::number::{difference, product, quotient, sum};
use extrema_guard::static_protect::STEP_SLACK;

fn n(x: f64) -> Float64 {
    Float64 { bits: x.to_bits() }
}

fn eval(formula: &Formula) -> f64 {
    match formula {
        Formula::Value(x) => f64::from_bits(x.bits),
        Formula::Sum(a, b) => eval(a) + eval(b),
        Formula::Difference(a, b) => eval(a) - eval(b),
        Formula::Product(a, b) => eval(a) * eval(b),
        Formula::Quotient(a, b) => eval(a) / eval(b),
    }
}

const SAMPLES: [f64; 16] = [
    0.0,
    -0.0,
    1.0,
    -1.0,
    0.1,
    -0.1,
    5e-324,
    -5e-324,
    2.2250738585072014e-308,
    60_000.0,
    -60_000.0,
    f64::MAX,
    f64::MIN,
    f64::INFINITY,
    f64::NEG_INFINITY,
    f64::NAN,
];

#[test]
fn comparisons_agree_with_the_hardware() {
    for x in SAMPLES {
        for y in SAMPLES {
            assert_eq!(n(x).lt(n(y)), x < y, "{} < {}", x, y);
            assert_eq!(n(x).le(n(y)), x <= y, "{} <= {}", x, y);
            assert_eq!(n(x).eq(n(y)), x == y, "{} == {}", x, y);
        }
    }
}

#[test]
fn signs_and_ranges_agree_with_the_hardware() {
    for x in SAMPLES {
        assert_eq!(n(x).is_nan(), x.is_nan());
        assert_eq!(n(x).is_finite(), x.is_finite());
        assert_eq!(n(x).abs().bits, x.abs().to_bits());
        assert_eq!(n(x).neg_abs().bits, (-x.abs()).to_bits());
    }
}

#[test]
fn constants_encode_their_numbers() {
    assert_eq!(f64::from_bits(ONE), 1.0);
    assert_eq!(f64::from_bits(HUNDRED), 100.0);
    assert_eq!(f64::from_bits(STEP_SLACK), 1.01);
}

#[test]
fn formulas_keep_the_order_of_operations() {
    let v = |x: f64| Formula::Value(n(x));
    assert_eq!(eval(&sum(v(0.1), v(0.2))), 0.1 + 0.2);
    assert_eq!(eval(&difference(v(0.3), v(0.1))), 0.3 - 0.1);
    assert_eq!(eval(&product(v(3.0), v(0.1))), 3.0 * 0.1);
    assert_eq!(eval(&quotient(v(1.0), v(3.0))), 1.0 / 3.0);
    assert_eq!(eval(&quotient(product(v(7.0), v(3.0)), v(100.0))), 0.21);
}
