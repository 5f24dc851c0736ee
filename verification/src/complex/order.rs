//! Complex numbers ordered by their real parts.
use vstd::prelude::*;

use core::cmp::Ordering;

use crate::complex::Complex;
use crate::num_traits::FloatNumber;

verus! {

/// The order of two real parts: less, equal, greater, or none of them (as for a NaN).
pub open spec fn real_order<T: FloatNumber>(a: T, b: T) -> Option<Ordering> {
    if a.lt_spec(b) {
        Some(Ordering::Less)
    } else if a.eq_spec(b) {
        Some(Ordering::Equal)
    } else if b.lt_spec(a) {
        Some(Ordering::Greater)
    } else {
        None
    }
}

impl<T: FloatNumber> PartialOrd for Complex<T> {
    /// Complex numbers compare by their real parts.
    fn partial_cmp(&self, other: &Self) -> (r: Option<Ordering>) {
        let a = self.real;
        let b = other.real;
        if a.float_lt(b) {
            Some(Ordering::Less)
        } else if a.float_eq(b) {
            Some(Ordering::Equal)
        } else if b.float_lt(a) {
            Some(Ordering::Greater)
        } else {
            None
        }
    }
}

impl<T: FloatNumber> vstd::std_specs::cmp::PartialOrdSpecImpl for Complex<T> {
    open spec fn obeys_partial_cmp_spec() -> bool {
        true
    }

    open spec fn partial_cmp_spec(&self, other: &Self) -> Option<Ordering> {
        real_order(self.re(), other.re())
    }
}

} // verus!
