use calamus::complex::Complex;
use calamus::num_traits::FloatNumber;

/// An f64 seen through the library's number trait.
#[derive(Clone, Copy, Debug, PartialEq)]
struct F(f64);

impl FloatNumber for F {
    fn epsilon() -> Self { F(1e-16) }
    fn zero() -> Self { F(0.0) }
    fn one() -> Self { F(1.0) }
    fn two() -> Self { F(2.0) }
    fn half() -> Self { F(0.5) }
    fn pi() -> Self { F(std::f64::consts::PI) }
    fn float_add(self, rhs: Self) -> Self { F(self.0 + rhs.0) }
    fn float_sub(self, rhs: Self) -> Self { F(self.0 - rhs.0) }
    fn float_mul(self, rhs: Self) -> Self { F(self.0 * rhs.0) }
    fn float_div(self, rhs: Self) -> Self { F(self.0 / rhs.0) }
    fn float_neg(self) -> Self { F(-self.0) }
    fn float_lt(self, rhs: Self) -> bool { self.0 < rhs.0 }
    fn float_le(self, rhs: Self) -> bool { self.0 <= rhs.0 }
    fn float_eq(self, rhs: Self) -> bool { self.0 == rhs.0 }
    fn float_from_i32(v: i32) -> Self { F(v as f64) }
    fn float_abs(self) -> Self { F(self.0.abs()) }
    fn float_sqrt(self) -> Self { F(self.0.sqrt()) }
    fn float_exp(self) -> Self { F(self.0.exp()) }
    fn float_max(self, rhs: Self) -> Self { F(self.0.max(rhs.0)) }
    fn float_min(self, rhs: Self) -> Self { F(self.0.min(rhs.0)) }
    fn fraction(a: i32, b: i32) -> Self { F(a as f64 / b as f64) }
    fn float_powf(self, e: Self) -> Self { F(self.0.powf(e.0)) }
    fn float_powi(self, e: i32) -> Self { F(self.0.powi(e)) }
    fn float_sin(self) -> Self { F(self.0.sin()) }
    fn float_cos(self) -> Self { F(self.0.cos()) }
    fn float_atan2(self, rhs: Self) -> Self { F(self.0.atan2(rhs.0)) }
    fn float_ln(self) -> Self { F(self.0.ln()) }
}

#[test]
fn complex_rotation_keeps_modulus() {
    let a = Complex::new(F(2.0), F(0.25));
    let b = Complex::new(F(0.0), F(-1.0));
    let c = a.float_mul(b);
    assert!((a.abs().0 - c.abs().0).abs() < 1e-14);
    assert_eq!(c.real_part().0, 0.25);
    assert_eq!(c.imag().0, -2.0);
}

fn c(re: f64, im: f64) -> Complex<F> {
    Complex::new(F(re), F(im))
}

#[test]
fn complex_arithmetic_operators() {
    let a = c(1.0, 2.0);
    let b = c(3.0, -1.0);
    let p = a * b;
    assert_eq!((p.real_part().0, p.imag().0), (5.0, 5.0));
    let s = a + b;
    assert_eq!((s.real_part().0, s.imag().0), (4.0, 1.0));
    let d = a - b;
    assert_eq!((d.real_part().0, d.imag().0), (-2.0, 3.0));
    let q = p / b;
    assert!((q.real_part().0 - 1.0).abs() < 1e-15 && (q.imag().0 - 2.0).abs() < 1e-15);
    let n = -a;
    assert_eq!((n.real_part().0, n.imag().0), (-1.0, -2.0));
}

#[test]
fn complex_conversions_and_equality() {
    let x: Complex<F> = Complex::from(F(2.5));
    assert_eq!((x.real_part().0, x.imag().0), (2.5, 0.0));
    let y: Complex<F> = Complex::from(3i32);
    assert_eq!((y.real_part().0, y.imag().0), (3.0, 0.0));
    let z: Complex<F> = Complex::from(7u8);
    assert_eq!(z.real_part().0, 7.0);
    // equality looks at the real parts only
    assert!(c(1.0, 2.0) == c(1.0, -5.0));
    assert!(c(1.0, 2.0) != c(2.0, 2.0));
}

#[test]
fn complex_elementary_functions() {
    let e = c(0.0, std::f64::consts::PI).exp();
    assert!((e.real_part().0 + 1.0).abs() < 1e-15 && e.imag().0.abs() < 1e-15);
    let r = c(-4.0, 0.0).principal_sqrt();
    assert!(r.real_part().0.abs() < 1e-15);
    let r2 = c(3.0, 4.0).principal_sqrt();
    assert!((r2.real_part().0 - 2.0).abs() < 1e-15 && (r2.imag().0 - 1.0).abs() < 1e-15);
    assert_eq!(c(3.0, 4.0).abs_squared().0, 25.0);
    assert_eq!(c(3.0, 4.0).abs().0, 5.0);
    let (m, t) = c(0.0, 2.0).mag_angle();
    assert!((m.0 - 2.0).abs() < 1e-15 && (t.0 - std::f64::consts::FRAC_PI_2).abs() < 1e-15);
    let sq = c(1.0, 1.0).powi(2);
    assert!(sq.real_part().0.abs() < 1e-15 && (sq.imag().0 - 2.0).abs() < 1e-15);
    let l = c(std::f64::consts::E, 0.0).principal_ln();
    assert!((l.real_part().0 - 1.0).abs() < 1e-15 && l.imag().0.abs() < 1e-15);
    let s = c(0.0, 0.0).sin();
    let co = c(0.0, 0.0).cos();
    assert_eq!((s.real_part().0, co.real_part().0), (0.0, 1.0));
}

#[test]
fn complex_min_max_return_an_argument() {
    let a = c(3.0, 4.0);
    let b = c(0.0, -6.0);
    let lo = a.min(b);
    let hi = a.max(b);
    assert_eq!((lo.real_part().0, lo.imag().0), (3.0, 4.0));
    assert_eq!((hi.real_part().0, hi.imag().0), (0.0, -6.0));
    // on a tie the receiver is kept
    let t = c(0.0, 5.0).min(c(5.0, 0.0));
    assert_eq!(t.imag().0, 5.0);
}

#[test]
fn complex_order_follows_the_real_parts() {
    assert!(c(1.0, 5.0) < c(2.0, 0.0));
    assert!(c(2.0, -1.0) > c(1.0, 9.0));
    assert_eq!(c(1.0, 2.0).partial_cmp(&c(1.0, -2.0)), Some(std::cmp::Ordering::Equal));
    assert_eq!(c(f64::NAN, 0.0).partial_cmp(&c(1.0, 0.0)), None);
}

#[test]
fn complex_compound_assignments() {
    let mut z = c(1.0, 2.0);
    z += c(1.0, 1.0);
    assert_eq!((z.real_part().0, z.imag().0), (2.0, 3.0));
    z -= c(2.0, 0.0);
    assert_eq!((z.real_part().0, z.imag().0), (0.0, 3.0));
    z *= c(0.0, 1.0);
    assert_eq!((z.real_part().0, z.imag().0), (-3.0, 0.0));
    z /= c(-3.0, 0.0);
    assert_eq!((z.real_part().0, z.imag().0), (1.0, 0.0));
}
