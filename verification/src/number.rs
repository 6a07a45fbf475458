//! Prices and sizes as the venues quote them: IEEE 754 double-precision numbers,
//! held by their 64-bit encoding.
//!
//! Comparisons, signs and range tests are decided here, on the encoding. Arithmetic
//! is not: a price level is built as a [`Formula`] over quoted numbers, which the
//! host evaluates in hardware and hands back as a [`Float64`].

use vstd::arithmetic::power2::{
    lemma2_to64, lemma2_to64_rest, lemma_pow2_adds, lemma_pow2_pos, lemma_pow2_unfold, pow2,
};
use vstd::prelude::*;

verus! {

/// The weight of the sign bit; what is left of an encoding without it is the
/// magnitude.
pub const SIGN_WEIGHT: u64 = 0x8000_0000_0000_0000;

/// The magnitude of the infinities. Larger magnitudes encode NaN.
pub const INFINITE: u64 = 0x7ff0_0000_0000_0000;

/// The weight of the lowest exponent bit.
pub const EXPONENT_WEIGHT: u64 = 0x0010_0000_0000_0000;

/// A double-precision number, by its encoding.
#[derive(Clone, Copy, Debug)]
pub struct Float64 {
    pub bits: u64,
}

/// The value of a finite, non-negative number with this magnitude, counted in units
/// of the smallest positive number (two to the power of -1074).
pub open spec fn magnitude_units(magnitude: nat) -> nat {
    let exponent = magnitude / (EXPONENT_WEIGHT as nat);
    let fraction = magnitude % (EXPONENT_WEIGHT as nat);
    if exponent == 0 {
        fraction
    } else {
        (EXPONENT_WEIGHT as nat + fraction) * pow2((exponent - 1) as nat)
    }
}

impl Float64 {
    pub open spec fn negative(self) -> bool {
        self.bits >= SIGN_WEIGHT
    }

    pub open spec fn magnitude(self) -> nat {
        if self.negative() {
            (self.bits - SIGN_WEIGHT) as nat
        } else {
            self.bits as nat
        }
    }

    pub open spec fn nan(self) -> bool {
        self.magnitude() > INFINITE
    }

    pub open spec fn finite(self) -> bool {
        self.magnitude() < INFINITE
    }

    /// The place of a number in the numeric order. Both zeros share a place; NaN has
    /// none.
    pub open spec fn rank(self) -> int {
        if self.negative() {
            -(self.magnitude() as int)
        } else {
            self.magnitude() as int
        }
    }

    /// The exact value of a finite number, in units of the smallest positive number.
    pub open spec fn units(self) -> int {
        if self.negative() {
            -(magnitude_units(self.magnitude()) as int)
        } else {
            magnitude_units(self.magnitude()) as int
        }
    }

    /// Numeric `<`, which NaN never satisfies.
    pub open spec fn less(self, other: Float64) -> bool {
        !self.nan() && !other.nan() && self.rank() < other.rank()
    }

    /// Numeric `<=`, which NaN never satisfies.
    pub open spec fn at_most(self, other: Float64) -> bool {
        !self.nan() && !other.nan() && self.rank() <= other.rank()
    }

    /// Numeric `==`, which NaN never satisfies.
    pub open spec fn equal(self, other: Float64) -> bool {
        !self.nan() && !other.nan() && self.rank() == other.rank()
    }

    /// The number without its sign.
    pub open spec fn absolute(self) -> Float64 {
        Float64 { bits: self.magnitude() as u64 }
    }

    /// The number with the sign of a negative one.
    pub open spec fn negated_absolute(self) -> Float64 {
        Float64 { bits: (self.magnitude() + SIGN_WEIGHT) as u64 }
    }

    pub fn is_nan(self) -> (r: bool)
        ensures
            r == self.nan(),
    {
        self.abs().bits > INFINITE
    }

    pub fn is_finite(self) -> (r: bool)
        ensures
            r == self.finite(),
    {
        self.abs().bits < INFINITE
    }

    pub fn abs(self) -> (r: Float64)
        ensures
            r == self.absolute(),
    {
        if self.bits >= SIGN_WEIGHT {
            Float64 { bits: self.bits - SIGN_WEIGHT }
        } else {
            self
        }
    }

    pub fn neg_abs(self) -> (r: Float64)
        ensures
            r == self.negated_absolute(),
    {
        Float64 { bits: self.abs().bits + SIGN_WEIGHT }
    }

    pub fn lt(self, other: Float64) -> (r: bool)
        ensures
            r == self.less(other),
    {
        if self.is_nan() || other.is_nan() {
            return false;
        }
        let a: u64 = self.abs().bits;
        let b: u64 = other.abs().bits;
        if self.bits >= SIGN_WEIGHT {
            if other.bits >= SIGN_WEIGHT {
                b < a
            } else {
                a > 0 || b > 0
            }
        } else {
            other.bits < SIGN_WEIGHT && a < b
        }
    }

    pub fn le(self, other: Float64) -> (r: bool)
        ensures
            r == self.at_most(other),
    {
        !self.is_nan() && !other.is_nan() && !other.lt(self)
    }

    pub fn eq(self, other: Float64) -> (r: bool)
        ensures
            r == self.equal(other),
    {
        self.le(other) && other.le(self)
    }
}

/// The encoding of 1.
pub const ONE: u64 = 0x3ff0_0000_0000_0000;

/// The encoding of 100.
pub const HUNDRED: u64 = 0x4059_0000_0000_0000;

/// The number that an encoding stands for.
pub open spec fn number(bits: u64) -> Float64 {
    Float64 { bits }
}

proof fn lemma_units_grow(a: nat, b: nat)
    requires
        a < b,
    ensures
        magnitude_units(a) < magnitude_units(b),
{
    let w = EXPONENT_WEIGHT as nat;
    let (ea, fa) = (a / w, a % w);
    let (eb, fb) = (b / w, b % w);
    assert(ea <= eb);
    if ea == eb {
        assert(fa < fb);
        if ea > 0 {
            let p = pow2((ea - 1) as nat);
            lemma_pow2_pos((ea - 1) as nat);
            assert((w + fa) * p < (w + fb) * p) by (nonlinear_arith)
                requires
                    fa < fb,
                    p > 0,
            ;
        }
    } else {
        let q = pow2((eb - 1) as nat);
        lemma_pow2_pos((eb - 1) as nat);
        assert((w + fb) * q >= w * q) by (nonlinear_arith);
        if ea == 0 {
            assert(w * q >= w) by (nonlinear_arith)
                requires
                    q > 0,
            ;
        } else {
            let p = pow2((ea - 1) as nat);
            let d = pow2((eb - 1 - ea) as nat);
            lemma_pow2_pos((ea - 1) as nat);
            lemma_pow2_pos((eb - 1 - ea) as nat);
            lemma_pow2_unfold(ea);
            lemma_pow2_adds(ea, (eb - 1 - ea) as nat);
            assert(q == 2 * p * d);
            assert((w + fa) * p < w * q) by (nonlinear_arith)
                requires
                    fa < w,
                    p > 0,
                    d > 0,
                    q == 2 * p * d,
            ;
        }
    }
}

/// Comparing encodings compares values: on finite numbers `<`, `<=` and `==` hold
/// exactly when they hold of the numbers' exact values.
pub proof fn law_comparison_is_numeric(a: Float64, b: Float64)
    requires
        a.finite(),
        b.finite(),
    ensures
        a.less(b) == (a.units() < b.units()),
        a.at_most(b) == (a.units() <= b.units()),
        a.equal(b) == (a.units() == b.units()),
{
    let (x, y) = (a.magnitude(), b.magnitude());
    assert(magnitude_units(0) == 0);
    if x > 0 {
        lemma_units_grow(0, x);
    }
    if y > 0 {
        lemma_units_grow(0, y);
    }
    if x < y {
        lemma_units_grow(x, y);
    } else if y < x {
        lemma_units_grow(y, x);
    }
}

/// A quoted number: its value, and the text it is printed as.
#[derive(Debug)]
pub struct Quote {
    pub value: Float64,
    pub text: String,
}

impl Clone for Quote {
    fn clone(&self) -> (r: Self)
        ensures
            r == *self,
    {
        Quote { value: self.value, text: self.text.clone() }
    }
}

/// Double-precision arithmetic left to the host: each operation is carried out once,
/// in the order written, rounding to nearest.
#[derive(Debug)]
pub enum Formula {
    Value(Float64),
    Sum(Box<Formula>, Box<Formula>),
    Difference(Box<Formula>, Box<Formula>),
    Product(Box<Formula>, Box<Formula>),
    Quotient(Box<Formula>, Box<Formula>),
}

pub open spec fn value_of(x: Float64) -> Formula {
    Formula::Value(x)
}

pub open spec fn sum_of(a: Formula, b: Formula) -> Formula {
    Formula::Sum(Box::new(a), Box::new(b))
}

pub open spec fn difference_of(a: Formula, b: Formula) -> Formula {
    Formula::Difference(Box::new(a), Box::new(b))
}

pub open spec fn product_of(a: Formula, b: Formula) -> Formula {
    Formula::Product(Box::new(a), Box::new(b))
}

pub open spec fn quotient_of(a: Formula, b: Formula) -> Formula {
    Formula::Quotient(Box::new(a), Box::new(b))
}

/// Whether an evaluation of formulas gives a value as it is.
pub open spec fn keeps_value_at(eval: spec_fn(Formula) -> Float64, x: Float64) -> bool {
    eval(value_of(x)) == x
}

/// Whether an evaluation that puts `a` below or level with `b` keeps them so when `c`, finite,
/// is taken off both, turns them round when both are taken off `c`, and keeps them so when both
/// are divided or multiplied by a positive `c`.
pub open spec fn keeps_order_at(
    eval: spec_fn(Formula) -> Float64,
    a: Formula,
    b: Formula,
    c: Formula,
) -> bool {
    eval(a).at_most(eval(b)) && eval(c).finite() ==> {
        &&& eval(difference_of(a, c)).at_most(eval(difference_of(b, c)))
        &&& eval(difference_of(c, b)).at_most(eval(difference_of(c, a)))
        &&& number(0).less(eval(c)) ==> {
            &&& eval(quotient_of(a, c)).at_most(eval(quotient_of(b, c)))
            &&& eval(product_of(a, c)).at_most(eval(product_of(b, c)))
        }
    }
}

/// Whether an evaluation of formulas keeps order, as every operation that is carried out
/// exactly and rounded to nearest does.
pub open spec fn keeps_order(eval: spec_fn(Formula) -> Float64) -> bool {
    &&& forall|x: Float64| #[trigger] keeps_value_at(eval, x)
    &&& forall|a: Formula, b: Formula, c: Formula| #[trigger] keeps_order_at(eval, a, b, c)
}

pub fn sum(a: Formula, b: Formula) -> (r: Formula)
    ensures
        r == sum_of(a, b),
{
    Formula::Sum(Box::new(a), Box::new(b))
}

pub fn difference(a: Formula, b: Formula) -> (r: Formula)
    ensures
        r == difference_of(a, b),
{
    Formula::Difference(Box::new(a), Box::new(b))
}

pub fn product(a: Formula, b: Formula) -> (r: Formula)
    ensures
        r == product_of(a, b),
{
    Formula::Product(Box::new(a), Box::new(b))
}

pub fn quotient(a: Formula, b: Formula) -> (r: Formula)
    ensures
        r == quotient_of(a, b),
{
    Formula::Quotient(Box::new(a), Box::new(b))
}

/// How many units of the smallest positive number make one.
pub open spec fn unit() -> int {
    pow2(1074) as int
}

/// The exact value of a formula over finite numbers, as a numerator and a denominator. The
/// denominator is zero where the formula divides by zero.
pub open spec fn exact(formula: Formula) -> (int, int)
    decreases formula,
{
    match formula {
        Formula::Value(x) => (x.units(), unit()),
        Formula::Sum(a, b) => (
            exact(*a).0 * exact(*b).1 + exact(*b).0 * exact(*a).1,
            exact(*a).1 * exact(*b).1,
        ),
        Formula::Difference(a, b) => (
            exact(*a).0 * exact(*b).1 - exact(*b).0 * exact(*a).1,
            exact(*a).1 * exact(*b).1,
        ),
        Formula::Product(a, b) => (exact(*a).0 * exact(*b).0, exact(*a).1 * exact(*b).1),
        Formula::Quotient(a, b) => (exact(*a).0 * exact(*b).1, exact(*a).1 * exact(*b).0),
    }
}

/// The number zero, one and one hundred are encoded as they are named, and a unit is positive.
pub proof fn law_constants_are_exact()
    ensures
        unit() > 0,
        number(0).units() == 0,
        number(1).units() == 1,
        number(ONE).units() == unit(),
        number(HUNDRED).units() == 100 * unit(),
        number(ONE).finite(),
        number(HUNDRED).finite(),
{
    lemma2_to64();
    lemma2_to64_rest();
    lemma_pow2_pos(1074);
    lemma_pow2_adds(52, 1022);
    assert(ONE as nat / EXPONENT_WEIGHT as nat == 1023);
    assert(ONE as nat % EXPONENT_WEIGHT as nat == 0);
    assert(EXPONENT_WEIGHT == pow2(52));
    lemma_pow2_adds(48, 1028);
    lemma_pow2_adds(2, 1074);
    assert(HUNDRED as nat / EXPONENT_WEIGHT as nat == 1029);
    assert(HUNDRED as nat % EXPONENT_WEIGHT as nat == 0x9_0000_0000_0000);
    assert(EXPONENT_WEIGHT + 0x9_0000_0000_0000 == 25 * pow2(48));
    assert((25 * pow2(48)) * pow2(1028) == 25 * (pow2(48) * pow2(1028))) by (nonlinear_arith);
}

/// An encoding reads as a sign and a magnitude: the sign bit negates a value, and one more in
/// the exponent doubles the value of a normal number.
pub proof fn law_encoding_is_sign_and_magnitude(x: Float64)
    requires
        x.bits < INFINITE,
    ensures
        x.finite(),
        x.units() >= 0,
        number((x.bits + SIGN_WEIGHT) as u64).units() == -x.units(),
        EXPONENT_WEIGHT <= x.bits < INFINITE - EXPONENT_WEIGHT ==> number(
            (x.bits + EXPONENT_WEIGHT) as u64,
        ).units() == 2 * x.units(),
        x.bits < EXPONENT_WEIGHT ==> x.units() == x.bits,
{
    let w = EXPONENT_WEIGHT as nat;
    let m = x.bits as nat;
    if EXPONENT_WEIGHT <= x.bits < INFINITE - EXPONENT_WEIGHT {
        let e = m / w;
        assert((m + w) / w == e + 1);
        assert((m + w) % w == m % w);
        lemma_pow2_unfold(e);
        let p = pow2((e - 1) as nat);
        assert((w + m % w) * (2 * p) == 2 * ((w + m % w) * p)) by (nonlinear_arith);
    }
}

proof fn lemma_only_zero_is_zero(x: Float64)
    ensures
        x.finite() ==> (x.units() == 0 <==> x.magnitude() == 0),
        x.finite() ==> (x.units() > 0 <==> x.magnitude() > 0 && !x.negative()),
        x.finite() ==> (x.units() < 0 <==> x.magnitude() > 0 && x.negative()),
{
    assert(magnitude_units(0) == 0);
    if x.magnitude() > 0 {
        lemma_units_grow(0, x.magnitude());
    }
}

/// A number is compared with zero by its sign: `0 < x`, `x < 0` and `x == 0` say of a finite
/// number what they say of its value.
pub proof fn law_sign_of_finite_numbers(x: Float64)
    requires
        x.finite(),
    ensures
        number(0).less(x) <==> x.units() > 0,
        x.less(number(0)) <==> x.units() < 0,
        x.equal(number(0)) <==> x.units() == 0,
        number(0).at_most(x) <==> x.units() >= 0,
        x.at_most(number(0)) <==> x.units() <= 0,
{
    lemma_only_zero_is_zero(x);
}

/// Dropping the sign of a finite number gives the size of its value, giving it a negative sign
/// the negated size; a number that is not finite, or none at all, stays so.
pub proof fn law_absolute_values(x: Float64)
    ensures
        x.absolute().finite() == x.finite(),
        x.absolute().nan() == x.nan(),
        x.negated_absolute().finite() == x.finite(),
        x.negated_absolute().nan() == x.nan(),
        x.finite() ==> {
            &&& x.absolute().units() == if x.units() < 0 {
                -x.units()
            } else {
                x.units()
            }
            &&& x.negated_absolute().units() == -x.absolute().units()
        },
        !x.nan() ==> number(0).at_most(x.absolute()) && x.negated_absolute().at_most(number(0)),
{
    lemma_only_zero_is_zero(x);
}

/// Numbers other than NaN are in one line: of two exactly one of less, equal and greater holds,
/// and the order carries on. The infinities stand at its ends. NaN is never compared.
pub proof fn law_order_is_linear(a: Float64, b: Float64, c: Float64)
    ensures
        a.nan() || b.nan() ==> !a.less(b) && !a.at_most(b) && !a.equal(b),
        !a.nan() && !b.nan() ==> {
            &&& a.at_most(b) <==> !b.less(a)
            &&& a.equal(b) <==> a.at_most(b) && b.at_most(a)
            &&& a.less(b) ==> !b.less(a)
        },
        a.at_most(b) && b.at_most(c) ==> a.at_most(c),
        !a.nan() ==> a.at_most(number(INFINITE)) && number(
            (INFINITE + SIGN_WEIGHT) as u64,
        ).at_most(a),
        a.finite() ==> a.less(number(INFINITE)) && number(
            (INFINITE + SIGN_WEIGHT) as u64,
        ).less(a),
        a.finite() ==> !a.nan(),
{
}

/// The exact values of the two sides of an operation make its exact value, and a value is worth its
/// units.
pub proof fn law_exact_arithmetic(x: Float64, a: Formula, b: Formula)
    ensures
        exact(value_of(x)) == (x.units(), unit()),
        exact(sum_of(a, b)) == (
            exact(a).0 * exact(b).1 + exact(b).0 * exact(a).1,
            exact(a).1 * exact(b).1,
        ),
        exact(difference_of(a, b)) == (
            exact(a).0 * exact(b).1 - exact(b).0 * exact(a).1,
            exact(a).1 * exact(b).1,
        ),
        exact(product_of(a, b)) == (exact(a).0 * exact(b).0, exact(a).1 * exact(b).1),
        exact(quotient_of(a, b)) == (exact(a).0 * exact(b).1, exact(a).1 * exact(b).0),
{
}

}
