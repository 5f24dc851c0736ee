//! Compound assignments of complex numbers.
use vstd::prelude::*;

use crate::complex::Complex;
use crate::num_traits::FloatNumber;

verus! {

impl<T: FloatNumber> core::ops::AddAssign for Complex<T> {
    fn add_assign(&mut self, rhs: Self)
        ensures
            *final(self) == FloatNumber::add_spec(*old(self), rhs),
    {
        *self = self.float_add(rhs);
    }
}

impl<T: FloatNumber> core::ops::SubAssign for Complex<T> {
    fn sub_assign(&mut self, rhs: Self)
        ensures
            *final(self) == FloatNumber::sub_spec(*old(self), rhs),
    {
        *self = self.float_sub(rhs);
    }
}

impl<T: FloatNumber> core::ops::MulAssign for Complex<T> {
    /// `(a + ib)(c + id) = (ac - bd) + i(ad + bc)`
    fn mul_assign(&mut self, rhs: Self)
        ensures
            *final(self) == FloatNumber::mul_spec(*old(self), rhs),
    {
        *self = self.float_mul(rhs);
    }
}

impl<T: FloatNumber> core::ops::DivAssign for Complex<T> {
    /// `(a + ib) / (c + id) = ((ac + bd) + i(bc - ad)) / (c² + d²)`
    fn div_assign(&mut self, rhs: Self)
        ensures
            *final(self) == FloatNumber::div_spec(*old(self), rhs),
    {
        *self = self.float_div(rhs);
    }
}

} // verus!
