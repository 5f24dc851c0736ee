//! Complex numbers over any [`FloatNumber`], themselves a [`FloatNumber`].
pub mod assign;
pub mod order;

use vstd::prelude::*;

use crate::num_traits::FloatNumber;

verus! {

#[derive(Clone, Copy, Debug)]
pub struct Complex<T> {
    real: T,
    imag: T,
}

impl<T: FloatNumber> Complex<T> {
    /// Real part.
    pub closed spec fn re(self) -> T {
        self.real
    }

    /// Imaginary part.
    pub closed spec fn im(self) -> T {
        self.imag
    }

    /// The complex number `re + i im`.
    pub closed spec fn mk(re: T, im: T) -> Complex<T> {
        Complex { real: re, imag: im }
    }

    pub proof fn lemma_mk(re: T, im: T)
        ensures
            Self::mk(re, im).re() == re,
            Self::mk(re, im).im() == im,
    {
    }

    /// `re² + im²`
    pub open spec fn abs_squared_spec(self) -> T {
        self.re().mul_spec(self.re()).add_spec(self.im().mul_spec(self.im()))
    }

    /// `√(re² + im²)`
    pub open spec fn abs_spec_c(self) -> T {
        self.abs_squared_spec().sqrt_spec()
    }

    /// `e^re (cos im + i sin im)`
    pub open spec fn exp_spec_c(self) -> Complex<T> {
        let ex = self.re().exp_spec();
        Self::mk(self.im().cos_spec().mul_spec(ex), self.im().sin_spec().mul_spec(ex))
    }

    /// Principal square root, `√((c + |z|)/2) + i d/max(|d|, ε) √((-c + |z|)/2)`.
    pub open spec fn principal_sqrt_spec(self) -> Complex<T> {
        let c = self.re();
        let d = self.im();
        let s = c.mul_spec(c).add_spec(d.mul_spec(d)).sqrt_spec();
        Self::mk(
            c.add_spec(s).div_spec(T::two_spec()).sqrt_spec(),
            d.div_spec(d.abs_spec().max_spec(T::epsilon_spec())).mul_spec(
                c.neg_spec().add_spec(s).div_spec(T::two_spec()).sqrt_spec(),
            ),
        )
    }

    /// Magnitude and angle, `(√(a² + b²), atan2(b, a))`.
    pub open spec fn mag_angle_spec(self) -> (T, T) {
        let a = self.re();
        let b = self.im();
        (a.mul_spec(a).add_spec(b.mul_spec(b)).sqrt_spec(), b.atan2_spec(a))
    }

    /// `r^n (cos nθ + i sin nθ)`
    pub open spec fn powi_spec_c(self, n: i32) -> Complex<T> {
        let (r, theta) = self.mag_angle_spec();
        let rn = r.powi_spec(n);
        let tn = theta.mul_spec(T::from_i32_spec(n));
        Self::mk(rn.mul_spec(tn.cos_spec()), rn.mul_spec(tn.sin_spec()))
    }

    /// `e^((ln r + iθ)(c + id))`
    pub open spec fn powf_spec_c(self, rhs: Complex<T>) -> Complex<T> {
        let (r, theta) = self.mag_angle_spec();
        let c = rhs.re();
        let d = rhs.im();
        let lnr = r.ln_spec();
        Self::mk(
            lnr.mul_spec(c).sub_spec(theta.mul_spec(d)),
            lnr.mul_spec(d).add_spec(theta.mul_spec(c)),
        ).exp_spec_c()
    }

    /// `z^w = e^(w ln z)`: the power is the exponential of the complex product of the
    /// principal logarithm of `z` with `w`, so its exponent has real part
    /// `ln|z| Re w - arg z Im w` and imaginary part `ln|z| Im w + arg z Re w`.
    pub proof fn lemma_powf_is_exp_of_product_with_ln(z: Complex<T>, w: Complex<T>)
        ensures
            z.powf_spec_c(w) == z.principal_ln_spec().mul_spec(w).exp_spec_c(),
    {
        let (r, theta) = z.mag_angle_spec();
        Self::lemma_mk(r.ln_spec(), theta);
    }

    /// `cosh b` and `sinh b`, each from `e^b` and `e^-b`.
    pub open spec fn cosh_sinh_spec(b: T) -> (T, T) {
        let bexp = b.exp_spec();
        let mbexp = b.neg_spec().exp_spec();
        (bexp.add_spec(mbexp).div_spec(T::two_spec()), bexp.sub_spec(mbexp).div_spec(T::two_spec()))
    }

    /// `cos a cosh b - i sin a sinh b`
    pub open spec fn cos_spec_c(self) -> Complex<T> {
        let (coshb, sinhb) = Self::cosh_sinh_spec(self.im());
        Self::mk(
            self.re().cos_spec().mul_spec(coshb),
            self.re().sin_spec().neg_spec().mul_spec(sinhb),
        )
    }

    /// `sin a cosh b + i cos a sinh b`
    pub open spec fn sin_spec_c(self) -> Complex<T> {
        let (coshb, sinhb) = Self::cosh_sinh_spec(self.im());
        Self::mk(self.re().sin_spec().mul_spec(coshb), self.re().cos_spec().mul_spec(sinhb))
    }

    /// `ln r + iθ`
    pub open spec fn principal_ln_spec(self) -> Complex<T> {
        let (r, theta) = self.mag_angle_spec();
        Self::mk(r.ln_spec(), theta)
    }

    /// Whichever of `self` and `rhs` has the smaller modulus, `self` on a tie.
    pub open spec fn min_spec_c(self, rhs: Complex<T>) -> Complex<T> {
        if self.abs_squared_spec().le_spec(rhs.abs_squared_spec()) {
            self
        } else {
            rhs
        }
    }

    /// Whichever of `self` and `rhs` has the larger modulus, `self` on a tie.
    pub open spec fn max_spec_c(self, rhs: Complex<T>) -> Complex<T> {
        if rhs.abs_squared_spec().le_spec(self.abs_squared_spec()) {
            self
        } else {
            rhs
        }
    }

    pub fn new(re: T, im: T) -> (z: Self)
        ensures
            z == Self::mk(re, im),
            z.re() == re,
            z.im() == im,
    {
        Self { real: re, imag: im }
    }

    pub fn real_part(self) -> (r: T)
        ensures
            r == self.re(),
    {
        self.real
    }

    pub fn imag(self) -> (r: T)
        ensures
            r == self.im(),
    {
        self.imag
    }

    pub fn abs_squared(self) -> (r: T)
        ensures
            r == self.abs_squared_spec(),
    {
        self.real.float_mul(self.real).float_add(self.imag.float_mul(self.imag))
    }

    pub fn abs(self) -> (r: T)
        ensures
            r == self.abs_spec_c(),
    {
        self.abs_squared().float_sqrt()
    }

    pub fn exp(self) -> (r: Self)
        ensures
            r == self.exp_spec_c(),
    {
        let x = self.real;
        let y = self.imag;

        let ex = x.float_exp();

        Self { real: y.float_cos().float_mul(ex), imag: y.float_sin().float_mul(ex) }
    }

    pub fn principal_sqrt(self) -> (r: Self)
        ensures
            r == self.principal_sqrt_spec(),
    {
        let c = self.real;
        let d = self.imag;

        let c2d2sqrt = c.float_mul(c).float_add(d.float_mul(d)).float_sqrt();

        Self {
            real: c.float_add(c2d2sqrt).float_div(T::two()).float_sqrt(),
            imag: d.float_div(d.float_abs().float_max(T::epsilon())).float_mul(
                c.float_neg().float_add(c2d2sqrt).float_div(T::two()).float_sqrt(),
            ),
        }
    }

    pub fn min(self, rhs: Self) -> (r: Self)
        ensures
            r == self.min_spec_c(rhs),
            r == self || r == rhs,
    {
        if self.abs_squared().float_le(rhs.abs_squared()) {
            self
        } else {
            rhs
        }
    }

    pub fn max(self, rhs: Self) -> (r: Self)
        ensures
            r == self.max_spec_c(rhs),
            r == self || r == rhs,
    {
        if rhs.abs_squared().float_le(self.abs_squared()) {
            self
        } else {
            rhs
        }
    }

    pub fn mag_angle(self) -> (r: (T, T))
        ensures
            r == self.mag_angle_spec(),
    {
        let a = self.real;
        let b = self.imag;
        (a.float_mul(a).float_add(b.float_mul(b)).float_sqrt(), b.float_atan2(a))
    }

    pub fn powi(self, rhs: i32) -> (r: Self)
        ensures
            r == self.powi_spec_c(rhs),
    {
        let (r, theta) = self.mag_angle();
        let rn = r.float_powi(rhs);
        let tn = theta.float_mul(T::float_from_i32(rhs));
        Self { real: rn.float_mul(tn.float_cos()), imag: rn.float_mul(tn.float_sin()) }
    }

    pub fn powf(self, rhs: Self) -> (r: Self)
        ensures
            r == self.powf_spec_c(rhs),
    {
        let (r, theta) = self.mag_angle();
        let c = rhs.real;
        let d = rhs.imag;
        let lnr = r.float_ln();
        let arg = Self {
            real: lnr.float_mul(c).float_sub(theta.float_mul(d)),
            imag: lnr.float_mul(d).float_add(theta.float_mul(c)),
        };
        arg.exp()
    }

    pub fn cos(self) -> (r: Self)
        ensures
            r == self.cos_spec_c(),
    {
        let a = self.real;
        let b = self.imag;

        let bexp = b.float_exp();
        let mbexp = b.float_neg().float_exp();

        let coshb = bexp.float_add(mbexp).float_div(T::two());
        let sinhb = bexp.float_sub(mbexp).float_div(T::two());

        Self {
            real: a.float_cos().float_mul(coshb),
            imag: a.float_sin().float_neg().float_mul(sinhb),
        }
    }

    pub fn sin(self) -> (r: Self)
        ensures
            r == self.sin_spec_c(),
    {
        let a = self.real;
        let b = self.imag;

        let bexp = b.float_exp();
        let mbexp = b.float_neg().float_exp();

        let coshb = bexp.float_add(mbexp).float_div(T::two());
        let sinhb = bexp.float_sub(mbexp).float_div(T::two());

        Self { real: a.float_sin().float_mul(coshb), imag: a.float_cos().float_mul(sinhb) }
    }

    pub fn principal_ln(self) -> (r: Self)
        ensures
            r == self.principal_ln_spec(),
    {
        let (r, theta) = self.mag_angle();
        Self { real: r.float_ln(), imag: theta }
    }
}

impl<T: FloatNumber> FloatNumber for Complex<T> {
    open spec fn epsilon_spec() -> Self {
        Self::mk(T::epsilon_spec(), T::zero_spec())
    }

    open spec fn zero_spec() -> Self {
        Self::mk(T::zero_spec(), T::zero_spec())
    }

    open spec fn one_spec() -> Self {
        Self::mk(T::one_spec(), T::zero_spec())
    }

    open spec fn two_spec() -> Self {
        Self::mk(T::two_spec(), T::zero_spec())
    }

    open spec fn half_spec() -> Self {
        Self::mk(T::half_spec(), T::zero_spec())
    }

    open spec fn pi_spec() -> Self {
        Self::mk(T::pi_spec(), T::zero_spec())
    }


    open spec fn add_spec(self, rhs: Self) -> Self {
        Self::mk(self.re().add_spec(rhs.re()), self.im().add_spec(rhs.im()))
    }

    open spec fn sub_spec(self, rhs: Self) -> Self {
        Self::mk(self.re().sub_spec(rhs.re()), self.im().sub_spec(rhs.im()))
    }

    open spec fn mul_spec(self, rhs: Self) -> Self {
        let (a, b, c, d) = (self.re(), self.im(), rhs.re(), rhs.im());
        Self::mk(a.mul_spec(c).sub_spec(b.mul_spec(d)), a.mul_spec(d).add_spec(b.mul_spec(c)))
    }

    open spec fn div_spec(self, rhs: Self) -> Self {
        let (a, b, c, d) = (self.re(), self.im(), rhs.re(), rhs.im());
        let c2d2 = c.mul_spec(c).add_spec(d.mul_spec(d));
        Self::mk(
            a.mul_spec(c).add_spec(b.mul_spec(d)).div_spec(c2d2),
            b.mul_spec(c).sub_spec(a.mul_spec(d)).div_spec(c2d2),
        )
    }

    open spec fn neg_spec(self) -> Self {
        Self::mk(self.re().neg_spec(), self.im().neg_spec())
    }

    open spec fn lt_spec(self, rhs: Self) -> bool {
        self.re().lt_spec(rhs.re())
    }

    open spec fn le_spec(self, rhs: Self) -> bool {
        self.re().le_spec(rhs.re())
    }

    open spec fn eq_spec(self, rhs: Self) -> bool {
        self.re().eq_spec(rhs.re())
    }

    open spec fn from_i32_spec(v: i32) -> Self {
        Self::mk(T::from_i32_spec(v), T::from_i32_spec(0))
    }

    open spec fn abs_spec(self) -> Self {
        Self::mk(self.abs_spec_c(), T::zero_spec())
    }

    open spec fn sqrt_spec(self) -> Self {
        self.principal_sqrt_spec()
    }

    open spec fn exp_spec(self) -> Self {
        self.exp_spec_c()
    }

    open spec fn max_spec(self, rhs: Self) -> Self {
        self.max_spec_c(rhs)
    }

    open spec fn min_spec(self, rhs: Self) -> Self {
        self.min_spec_c(rhs)
    }

    open spec fn fraction_spec(a: i32, b: i32) -> Self {
        Self::mk(T::from_i32_spec(a).div_spec(T::from_i32_spec(b)), T::zero_spec())
    }

    open spec fn powf_spec(self, exponent: Self) -> Self {
        self.powf_spec_c(exponent)
    }

    open spec fn powi_spec(self, exponent: i32) -> Self {
        self.powi_spec_c(exponent)
    }

    open spec fn sin_spec(self) -> Self {
        self.sin_spec_c()
    }

    open spec fn cos_spec(self) -> Self {
        self.cos_spec_c()
    }

    open spec fn atan2_spec(self, rhs: Self) -> Self {
        Self::mk(self.div_spec(rhs).mag_angle_spec().1, T::zero_spec())
    }

    open spec fn ln_spec(self) -> Self {
        self.principal_ln_spec()
    }

    fn epsilon() -> (r: Self) {
        Self { real: T::epsilon(), imag: T::zero() }
    }

    fn zero() -> (r: Self) {
        Self { real: T::zero(), imag: T::zero() }
    }

    fn one() -> (r: Self) {
        Self { real: T::one(), imag: T::zero() }
    }

    fn two() -> (r: Self) {
        Self { real: T::two(), imag: T::zero() }
    }

    fn half() -> (r: Self) {
        Self { real: T::half(), imag: T::zero() }
    }

    fn pi() -> (r: Self) {
        Self { real: T::pi(), imag: T::zero() }
    }

    fn float_add(self, rhs: Self) -> (r: Self) {
        Self { real: self.real.float_add(rhs.real), imag: self.imag.float_add(rhs.imag) }
    }

    fn float_sub(self, rhs: Self) -> (r: Self) {
        Self { real: self.real.float_sub(rhs.real), imag: self.imag.float_sub(rhs.imag) }
    }

    fn float_mul(self, rhs: Self) -> (r: Self) {
        let a = self.real;
        let b = self.imag;
        let c = rhs.real;
        let d = rhs.imag;
        Self { real: a.float_mul(c).float_sub(b.float_mul(d)), imag: a.float_mul(d).float_add(b.float_mul(c)) }
    }

    fn float_div(self, rhs: Self) -> (r: Self) {
        let a = self.real;
        let b = self.imag;
        let c = rhs.real;
        let d = rhs.imag;

        let c2d2 = c.float_mul(c).float_add(d.float_mul(d));

        Self {
            real: a.float_mul(c).float_add(b.float_mul(d)).float_div(c2d2),
            imag: b.float_mul(c).float_sub(a.float_mul(d)).float_div(c2d2),
        }
    }

    fn float_neg(self) -> (r: Self) {
        Self { real: self.real.float_neg(), imag: self.imag.float_neg() }
    }

    fn float_lt(self, rhs: Self) -> (r: bool) {
        self.real.float_lt(rhs.real)
    }

    fn float_le(self, rhs: Self) -> (r: bool) {
        self.real.float_le(rhs.real)
    }

    fn float_eq(self, rhs: Self) -> (r: bool) {
        self.real.float_eq(rhs.real)
    }

    fn float_from_i32(v: i32) -> (r: Self) {
        Self { real: T::float_from_i32(v), imag: T::float_from_i32(0) }
    }

    fn float_abs(self) -> (r: Self) {
        Self { real: self.abs(), imag: T::zero() }
    }

    fn float_sqrt(self) -> (r: Self) {
        self.principal_sqrt()
    }

    fn float_exp(self) -> (r: Self) {
        self.exp()
    }

    fn float_max(self, rhs: Self) -> (r: Self) {
        self.max(rhs)
    }

    fn float_min(self, rhs: Self) -> (r: Self) {
        self.min(rhs)
    }

    fn fraction(a: i32, b: i32) -> (r: Self) {
        Self { real: T::float_from_i32(a).float_div(T::float_from_i32(b)), imag: T::zero() }
    }

    fn float_powf(self, exponent: Self) -> (r: Self) {
        self.powf(exponent)
    }

    fn float_powi(self, exponent: i32) -> (r: Self) {
        self.powi(exponent)
    }

    fn float_sin(self) -> (r: Self) {
        self.sin()
    }

    fn float_cos(self) -> (r: Self) {
        self.cos()
    }

    fn float_atan2(self, rhs: Self) -> (r: Self) {
        Self { real: self.float_div(rhs).mag_angle().1, imag: T::zero() }
    }

    fn float_ln(self) -> (r: Self) {
        self.principal_ln()
    }
}

impl<T: FloatNumber> core::ops::Add<Self> for Complex<T> {
    type Output = Self;

    fn add(self, rhs: Self) -> (r: Self)
        ensures
            r == FloatNumber::add_spec(self, rhs),
    {
        self.float_add(rhs)
    }
}

impl<T: FloatNumber> vstd::std_specs::ops::AddSpecImpl<Self> for Complex<T> {
    open spec fn obeys_add_spec() -> bool {
        true
    }

    open spec fn add_req(self, rhs: Self) -> bool {
        true
    }

    open spec fn add_spec(self, rhs: Self) -> Self {
        FloatNumber::add_spec(self, rhs)
    }
}

impl<T: FloatNumber> core::ops::Sub<Self> for Complex<T> {
    type Output = Self;

    fn sub(self, rhs: Self) -> (r: Self)
        ensures
            r == FloatNumber::sub_spec(self, rhs),
    {
        self.float_sub(rhs)
    }
}

impl<T: FloatNumber> vstd::std_specs::ops::SubSpecImpl<Self> for Complex<T> {
    open spec fn obeys_sub_spec() -> bool {
        true
    }

    open spec fn sub_req(self, rhs: Self) -> bool {
        true
    }

    open spec fn sub_spec(self, rhs: Self) -> Self {
        FloatNumber::sub_spec(self, rhs)
    }
}

impl<T: FloatNumber> core::ops::Mul<Self> for Complex<T> {
    type Output = Self;

    /// `(a + ib)(c + id) = (ac - bd) + i(ad + bc)`
    fn mul(self, rhs: Self) -> (r: Self)
        ensures
            r == FloatNumber::mul_spec(self, rhs),
    {
        self.float_mul(rhs)
    }
}

impl<T: FloatNumber> vstd::std_specs::ops::MulSpecImpl<Self> for Complex<T> {
    open spec fn obeys_mul_spec() -> bool {
        true
    }

    open spec fn mul_req(self, rhs: Self) -> bool {
        true
    }

    open spec fn mul_spec(self, rhs: Self) -> Self {
        FloatNumber::mul_spec(self, rhs)
    }
}

impl<T: FloatNumber> core::ops::Div<Self> for Complex<T> {
    type Output = Self;

    /// `(a + ib) / (c + id) = ((ac + bd) + i(bc - ad)) / (c² + d²)`
    fn div(self, rhs: Self) -> (r: Self)
        ensures
            r == FloatNumber::div_spec(self, rhs),
    {
        self.float_div(rhs)
    }
}

impl<T: FloatNumber> vstd::std_specs::ops::DivSpecImpl<Self> for Complex<T> {
    open spec fn obeys_div_spec() -> bool {
        true
    }

    open spec fn div_req(self, rhs: Self) -> bool {
        true
    }

    open spec fn div_spec(self, rhs: Self) -> Self {
        FloatNumber::div_spec(self, rhs)
    }
}

impl<T: FloatNumber> core::ops::Neg for Complex<T> {
    type Output = Self;

    fn neg(self) -> (r: Self)
        ensures
            r == FloatNumber::neg_spec(self),
    {
        self.float_neg()
    }
}

impl<T: FloatNumber> vstd::std_specs::ops::NegSpecImpl for Complex<T> {
    open spec fn obeys_neg_spec() -> bool {
        true
    }

    open spec fn neg_req(self) -> bool {
        true
    }

    open spec fn neg_spec(self) -> Self {
        FloatNumber::neg_spec(self)
    }
}

impl<T: FloatNumber> PartialEq for Complex<T> {
    /// Complex numbers compare by their real parts.
    fn eq(&self, other: &Self) -> (r: bool) {
        self.real.float_eq(other.real)
    }
}

impl<T: FloatNumber> vstd::std_specs::cmp::PartialEqSpecImpl for Complex<T> {
    open spec fn obeys_eq_spec() -> bool {
        true
    }

    open spec fn eq_spec(&self, other: &Self) -> bool {
        self.re().eq_spec(other.re())
    }
}

impl<T: FloatNumber> From<T> for Complex<T> {
    fn from(value: T) -> (r: Self)
        ensures
            r == Self::mk(value, T::zero_spec()),
    {
        Self { real: value, imag: T::zero() }
    }
}

impl<T: FloatNumber> vstd::std_specs::convert::FromSpecImpl<T> for Complex<T> {
    open spec fn obeys_from_spec() -> bool {
        true
    }

    open spec fn from_spec(v: T) -> Self {
        Self::mk(v, T::zero_spec())
    }
}

impl<T: FloatNumber> From<i32> for Complex<T> {
    fn from(value: i32) -> (r: Self)
        ensures
            r == Self::mk(T::from_i32_spec(value), T::from_i32_spec(0)),
    {
        Self { real: T::float_from_i32(value), imag: T::float_from_i32(0) }
    }
}

impl<T: FloatNumber> vstd::std_specs::convert::FromSpecImpl<i32> for Complex<T> {
    open spec fn obeys_from_spec() -> bool {
        true
    }

    open spec fn from_spec(v: i32) -> Self {
        Self::mk(T::from_i32_spec(v), T::from_i32_spec(0))
    }
}

impl<T: FloatNumber> From<u8> for Complex<T> {
    fn from(value: u8) -> (r: Self)
        ensures
            r == Self::mk(T::from_i32_spec(value as i32), T::from_i32_spec(0)),
    {
        Self { real: T::float_from_i32(value as i32), imag: T::float_from_i32(0) }
    }
}

impl<T: FloatNumber> vstd::std_specs::convert::FromSpecImpl<u8> for Complex<T> {
    open spec fn obeys_from_spec() -> bool {
        true
    }

    open spec fn from_spec(v: u8) -> Self {
        Self::mk(T::from_i32_spec(v as i32), T::from_i32_spec(0))
    }
}

} // verus!
