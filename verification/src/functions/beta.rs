//! The incomplete beta function, by its continued fraction.
use vstd::prelude::*;

use crate::num_traits::FloatNumber;

verus! {

/// Term `n` (from 1) of the continued fraction of the incomplete beta function.
pub open spec fn beta_cf_term<T: FloatNumber>(x: T, a: T, b: T, n: i32) -> T {
    if n % 2 == 1 {
        let mt = T::from_i32_spec(n).sub_spec(T::one_spec()).div_spec(T::two_spec());
        a.add_spec(mt).neg_spec().mul_spec(a.add_spec(b).add_spec(mt)).mul_spec(x).div_spec(
            a.add_spec(T::two_spec().mul_spec(mt)).mul_spec(a.add_spec(T::two_spec().mul_spec(mt)).add_spec(T::one_spec())),
        )
    } else {
        let mt = T::from_i32_spec(n).div_spec(T::two_spec());
        mt.mul_spec(b.sub_spec(mt)).mul_spec(x).div_spec(
            a.add_spec(T::two_spec().mul_spec(mt)).sub_spec(T::one_spec()).mul_spec(a.add_spec(T::two_spec().mul_spec(mt))),
        )
    }
}

/// The convergents of the continued fraction from term `n` on, given the
/// numerators and denominators of the last two: `(A_n, B_n, A_{n-1}, B_{n-1})`
/// where the successive quotients first agree within `1000 EPSILON`, or after term 100.
pub open spec fn beta_cf_run<T: FloatNumber>(x: T, a: T, b: T, n: i32, anm1: T, bnm1: T, an: T, bn: T) -> (T, T, T, T)
    decreases 100 - n,
{
    let t = beta_cf_term(x, a, b, n);
    let an2 = T::one_spec().mul_spec(an).add_spec(t.mul_spec(anm1));
    let bn2 = T::one_spec().mul_spec(bn).add_spec(t.mul_spec(bnm1));
    if an2.div_spec(bn2).sub_spec(an.div_spec(bn)).abs_spec().lt_spec(T::epsilon_spec().mul_spec(T::from_i32_spec(1000)))
        || n + 1 > 100 || n < 1 {
        (an2, bn2, an, bn)
    } else {
        beta_cf_run(x, a, b, (n + 1) as i32, an, bn, an2, bn2)
    }
}

/// The continued fraction of `B(x; a, b)`: `2 A / B - A' / B'` with `A/B`, `A'/B'`
/// its last two convergents.
pub open spec fn beta_cf_value<T: FloatNumber>(x: T, a: T, b: T) -> T {
    let r = beta_cf_run(x, a, b, 1, T::one_spec(), T::zero_spec(), T::one_spec(), T::one_spec());
    T::two_spec().mul_spec(r.0).div_spec(r.1).sub_spec(r.2.div_spec(r.3))
}

/// `x^a (1 - x)^b / (a (2 A / B - A' / B'))` with `A/B`, `A'/B'` the last two convergents.
pub open spec fn beta_incomplete_spec<T: FloatNumber>(x: T, a: T, b: T) -> T {
    let denom = beta_cf_value(x, a, b);
    x.powf_spec(a).mul_spec(T::one_spec().sub_spec(x).powf_spec(b)).div_spec(a.mul_spec(denom))
}

/// `B(x; a, b)`, the integral of `t^(a-1) (1-t)^(b-1)` from 0 to `x`, depends on
/// `x` only through `x` raised to the first shape parameter `a`, `1 - x` raised to
/// the second `b`, and the continued fraction: two points that agree on these
/// give the same value (the exponent of `x` is `a`, that of `1 - x` is `b`).
pub proof fn lemma_beta_incomplete_depends_on_x_through_its_factors<T: FloatNumber>(x1: T, x2: T, a: T, b: T)
    requires
        x1.powf_spec(a) == x2.powf_spec(a),
        T::one_spec().sub_spec(x1).powf_spec(b) == T::one_spec().sub_spec(x2).powf_spec(b),
        beta_cf_value(x1, a, b) == beta_cf_value(x2, a, b),
    ensures
        beta_incomplete_spec(x1, a, b) == beta_incomplete_spec(x2, a, b),
{
}

/// `B(x; a, b)` depends on the second shape parameter `b` only through `(1 - x)^b`
/// and the continued fraction: `x` is raised to `a`, whatever `b`.
pub proof fn lemma_beta_incomplete_depends_on_b_through_its_factors<T: FloatNumber>(x: T, a: T, b1: T, b2: T)
    requires
        T::one_spec().sub_spec(x).powf_spec(b1) == T::one_spec().sub_spec(x).powf_spec(b2),
        beta_cf_value(x, a, b1) == beta_cf_value(x, a, b2),
    ensures
        beta_incomplete_spec(x, a, b1) == beta_incomplete_spec(x, a, b2),
{
}

/// The incomplete beta function `B(x; a, b)`, by its continued fraction.
pub fn beta_incomplete<T>(x: T, a: T, b: T) -> (r: T) where T: FloatNumber
    ensures
        r == beta_incomplete_spec(x, a, b),
{
    // definition using continued fraction expansion
    let mut anm1_maj = T::one();
    let mut bnm1_maj = T::zero();
    let mut n: i32 = 1;
    let mut an_maj = T::one();
    let mut bn_maj = T::one();
    loop
        invariant_except_break
            1 <= n <= 100,
            beta_cf_run(x, a, b, 1, T::one_spec(), T::zero_spec(), T::one_spec(), T::one_spec()) == beta_cf_run(
                x,
                a,
                b,
                n,
                anm1_maj,
                bnm1_maj,
                an_maj,
                bn_maj,
            ),
        ensures
            beta_cf_run(x, a, b, 1, T::one_spec(), T::zero_spec(), T::one_spec(), T::one_spec()) == (
                an_maj,
                bn_maj,
                anm1_maj,
                bnm1_maj,
            ),
        decreases 100 - n,
    {
        let an = if n % 2 == 1 {
            let mt = T::float_from_i32(n).float_sub(T::one()).float_div(T::two());
            a.float_add(mt).float_neg().float_mul(a.float_add(b).float_add(mt)).float_mul(x).float_div(
                a.float_add(T::two().float_mul(mt)).float_mul(a.float_add(T::two().float_mul(mt)).float_add(T::one())),
            )
        } else {
            let mt = T::float_from_i32(n).float_div(T::two());
            mt.float_mul(b.float_sub(mt)).float_mul(x).float_div(
                a.float_add(T::two().float_mul(mt)).float_sub(T::one()).float_mul(a.float_add(T::two().float_mul(mt))),
            )
        };
        let bn = T::one();
        let an_save = an_maj;
        let bn_save = bn_maj;
        an_maj = bn.float_mul(an_save).float_add(an.float_mul(anm1_maj));
        bn_maj = bn.float_mul(bn_save).float_add(an.float_mul(bnm1_maj));
        anm1_maj = an_save;
        bnm1_maj = bn_save;
        if an_maj.float_div(bn_maj).float_sub(anm1_maj.float_div(bnm1_maj)).float_abs().float_lt(
            T::epsilon().float_mul(T::float_from_i32(1000)),
        ) {
            break;
        }
        n = n + 1;
        if n > 100 {
            break;
        }
    }
    let denom = T::two().float_mul(an_maj).float_div(bn_maj).float_sub(anm1_maj.float_div(bnm1_maj));
    x.float_powf(a).float_mul(T::one().float_sub(x).float_powf(b)).float_div(a.float_mul(denom))
}

} // verus!
