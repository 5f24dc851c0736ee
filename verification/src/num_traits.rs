//! The number trait that the algorithms of the library are written against.
use vstd::prelude::*;

verus! {

/// A number (possibly complex), represented by one or more floating point values.
///
/// Each operation is tied, by its `ensures`, to a spec function of the same
/// trait that names its result; generic code is verified against these names.
/// An implementation checked by Verus gives each spec function its meaning;
/// the default bodies leave that meaning open, as it is for implementations
/// written outside of verified code (such as one on `f64`).
pub trait FloatNumber: Copy + Sized {
    open spec fn epsilon_spec() -> Self {
        vstd::pervasive::arbitrary()
    }

    open spec fn zero_spec() -> Self {

        vstd::pervasive::arbitrary()

    }

    open spec fn one_spec() -> Self {

        vstd::pervasive::arbitrary()

    }

    open spec fn two_spec() -> Self {

        vstd::pervasive::arbitrary()

    }

    open spec fn half_spec() -> Self {

        vstd::pervasive::arbitrary()

    }

    open spec fn pi_spec() -> Self {

        vstd::pervasive::arbitrary()

    }

    open spec fn add_spec(self, rhs: Self) -> Self {

        vstd::pervasive::arbitrary()

    }

    open spec fn sub_spec(self, rhs: Self) -> Self {

        vstd::pervasive::arbitrary()

    }

    open spec fn mul_spec(self, rhs: Self) -> Self {

        vstd::pervasive::arbitrary()

    }

    open spec fn div_spec(self, rhs: Self) -> Self {

        vstd::pervasive::arbitrary()

    }

    open spec fn neg_spec(self) -> Self {

        vstd::pervasive::arbitrary()

    }

    open spec fn lt_spec(self, rhs: Self) -> bool {

        vstd::pervasive::arbitrary()

    }

    open spec fn le_spec(self, rhs: Self) -> bool {

        vstd::pervasive::arbitrary()

    }

    open spec fn eq_spec(self, rhs: Self) -> bool {

        vstd::pervasive::arbitrary()

    }

    open spec fn from_i32_spec(v: i32) -> Self {

        vstd::pervasive::arbitrary()

    }

    open spec fn abs_spec(self) -> Self {

        vstd::pervasive::arbitrary()

    }

    open spec fn sqrt_spec(self) -> Self {

        vstd::pervasive::arbitrary()

    }

    open spec fn exp_spec(self) -> Self {

        vstd::pervasive::arbitrary()

    }

    open spec fn max_spec(self, rhs: Self) -> Self {

        vstd::pervasive::arbitrary()

    }

    open spec fn min_spec(self, rhs: Self) -> Self {

        vstd::pervasive::arbitrary()

    }

    open spec fn fraction_spec(a: i32, b: i32) -> Self {

        vstd::pervasive::arbitrary()

    }

    open spec fn powf_spec(self, exponent: Self) -> Self {

        vstd::pervasive::arbitrary()

    }

    open spec fn powi_spec(self, exponent: i32) -> Self {

        vstd::pervasive::arbitrary()

    }

    open spec fn sin_spec(self) -> Self {

        vstd::pervasive::arbitrary()

    }

    open spec fn cos_spec(self) -> Self {

        vstd::pervasive::arbitrary()

    }

    open spec fn atan2_spec(self, rhs: Self) -> Self {

        vstd::pervasive::arbitrary()

    }

    open spec fn ln_spec(self) -> Self {

        vstd::pervasive::arbitrary()

    }

    /// The tolerance under which a value counts as zero.
    fn epsilon() -> (r: Self)
        ensures
            r == Self::epsilon_spec(),
    ;

    /// 0
    fn zero() -> (r: Self)
        ensures
            r == Self::zero_spec(),
    ;

    /// 1
    fn one() -> (r: Self)
        ensures
            r == Self::one_spec(),
    ;

    /// 2
    fn two() -> (r: Self)
        ensures
            r == Self::two_spec(),
    ;

    /// 1/2
    fn half() -> (r: Self)
        ensures
            r == Self::half_spec(),
    ;

    /// π
    fn pi() -> (r: Self)
        ensures
            r == Self::pi_spec(),
    ;

    fn float_add(self, rhs: Self) -> (r: Self)
        ensures
            r == self.add_spec(rhs),
    ;

    fn float_sub(self, rhs: Self) -> (r: Self)
        ensures
            r == self.sub_spec(rhs),
    ;

    fn float_mul(self, rhs: Self) -> (r: Self)
        ensures
            r == self.mul_spec(rhs),
    ;

    fn float_div(self, rhs: Self) -> (r: Self)
        ensures
            r == self.div_spec(rhs),
    ;

    fn float_neg(self) -> (r: Self)
        ensures
            r == self.neg_spec(),
    ;

    /// `self < rhs`
    fn float_lt(self, rhs: Self) -> (r: bool)
        ensures
            r == self.lt_spec(rhs),
    ;

    /// `self <= rhs`
    fn float_le(self, rhs: Self) -> (r: bool)
        ensures
            r == self.le_spec(rhs),
    ;

    /// `self == rhs`
    fn float_eq(self, rhs: Self) -> (r: bool)
        ensures
            r == self.eq_spec(rhs),
    ;

    fn float_from_i32(v: i32) -> (r: Self)
        ensures
            r == Self::from_i32_spec(v),
    ;

    fn float_abs(self) -> (r: Self)
        ensures
            r == self.abs_spec(),
    ;

    fn float_sqrt(self) -> (r: Self)
        ensures
            r == self.sqrt_spec(),
    ;

    fn float_exp(self) -> (r: Self)
        ensures
            r == self.exp_spec(),
    ;

    fn float_max(self, rhs: Self) -> (r: Self)
        ensures
            r == self.max_spec(rhs),
    ;

    fn float_min(self, rhs: Self) -> (r: Self)
        ensures
            r == self.min_spec(rhs),
    ;

    /// `a / b`
    fn fraction(a: i32, b: i32) -> (r: Self)
        ensures
            r == Self::fraction_spec(a, b),
    ;

    fn float_powf(self, exponent: Self) -> (r: Self)
        ensures
            r == self.powf_spec(exponent),
    ;

    fn float_powi(self, exponent: i32) -> (r: Self)
        ensures
            r == self.powi_spec(exponent),
    ;

    fn float_sin(self) -> (r: Self)
        ensures
            r == self.sin_spec(),
    ;

    fn float_cos(self) -> (r: Self)
        ensures
            r == self.cos_spec(),
    ;

    /// The angle of the point `(rhs, self)`.
    fn float_atan2(self, rhs: Self) -> (r: Self)
        ensures
            r == self.atan2_spec(rhs),
    ;

    fn float_ln(self) -> (r: Self)
        ensures
            r == self.ln_spec(),
    ;
}

} // verus!
