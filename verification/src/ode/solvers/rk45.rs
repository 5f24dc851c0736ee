//! Explicit adaptive Runge-Kutta-Fehlberg integration, for non-stiff problems.
use vstd::prelude::*;

use crate::linalg::vector::{DynamicVector, Vector, VectorMut, VectorView};
use crate::num_traits::FloatNumber;
use crate::ode::ode::Ode;
use crate::ode::solvers::Solver;

verus! {

/// `x + ks[0] b[0] + ks[1] b[1] + ...` over the first `m` terms, added from the left.
pub open spec fn rk_combine<T: FloatNumber>(x: T, ks: Seq<T>, b: Seq<T>, m: nat) -> T
    decreases m,
{
    if m == 0 {
        x
    } else {
        rk_combine(x, ks, b, (m - 1) as nat).add_spec(ks[m - 1].mul_spec(b[m - 1]))
    }
}

/// `rk_combine` reads only the first `m` terms.
pub proof fn lemma_rk_combine_prefix<T: FloatNumber>(x: T, ks1: Seq<T>, b1: Seq<T>, ks2: Seq<T>, b2: Seq<T>, m: nat)
    requires
        forall|j: int| 0 <= j < m ==> ks1[j] == ks2[j] && b1[j] == b2[j],
    ensures
        rk_combine(x, ks1, b1, m) == rk_combine(x, ks2, b2, m),
    decreases m,
{
    if m > 0 {
        lemma_rk_combine_prefix(x, ks1, b1, ks2, b2, (m - 1) as nat);
    }
}

/// The time of stage `s` (from 1) as a fraction of the step.
pub open spec fn rk_alpha<T: FloatNumber>(s: int) -> T {
    if s == 1 {
        T::fraction_spec(2, 9)
    } else if s == 2 {
        T::fraction_spec(1, 3)
    } else if s == 3 {
        T::fraction_spec(3, 4)
    } else if s == 4 {
        T::from_i32_spec(1)
    } else {
        T::fraction_spec(5, 6)
    }
}

/// The weights of the earlier stages in stage `s` (from 1).
pub open spec fn rk_beta<T: FloatNumber>(s: int) -> Seq<T> {
    if s == 1 {
        seq![T::fraction_spec(2, 9)]
    } else if s == 2 {
        seq![T::fraction_spec(1, 12), T::fraction_spec(1, 4)]
    } else if s == 3 {
        seq![T::fraction_spec(69, 128), T::fraction_spec(-243i32, 128), T::fraction_spec(135, 64)]
    } else if s == 4 {
        seq![T::fraction_spec(-17i32, 12), T::fraction_spec(27, 4), T::fraction_spec(-27i32, 5), T::fraction_spec(16, 15)]
    } else {
        seq![
            T::fraction_spec(65, 432),
            T::fraction_spec(-5i32, 16),
            T::fraction_spec(13, 16),
            T::fraction_spec(4, 27),
            T::fraction_spec(5, 144),
        ]
    }
}

/// The weights of the earlier stages in stage `s` (from 1), as exact fractions
/// `(numerator, denominator)`.
pub open spec fn rk_beta_frac(s: int) -> Seq<(i32, i32)> {
    if s == 1 {
        seq![(2i32, 9i32)]
    } else if s == 2 {
        seq![(1i32, 12i32), (1i32, 4i32)]
    } else if s == 3 {
        seq![(69i32, 128i32), (-243i32, 128i32), (135i32, 64i32)]
    } else if s == 4 {
        seq![(-17i32, 12i32), (27i32, 4i32), (-27i32, 5i32), (16i32, 15i32)]
    } else {
        seq![(65i32, 432i32), (-5i32, 16i32), (13i32, 16i32), (4i32, 27i32), (5i32, 144i32)]
    }
}

/// The sum of the fractions `fs`, as an unreduced `(numerator, denominator)`.
pub open spec fn frac_sum(fs: Seq<(i32, i32)>) -> (int, int)
    decreases fs.len(),
{
    if fs.len() == 0 {
        (0, 1)
    } else {
        let p = frac_sum(fs.drop_last());
        let q = fs.last();
        (p.0 * q.1 + q.0 * p.1, p.1 * q.1)
    }
}

proof fn lemma_frac_sum_push(fs: Seq<(i32, i32)>, q: (i32, i32))
    ensures
        frac_sum(fs.push(q)) == (frac_sum(fs).0 * q.1 + q.0 * frac_sum(fs).1, frac_sum(fs).1 * q.1),
{
    assert(fs.push(q).drop_last() =~= fs);
}

/// The number that the fraction `(n, d)` stands for: `n` itself when `d` is 1.
pub open spec fn frac_value<T: FloatNumber>(f: (i32, i32)) -> T {
    if f.1 == 1 {
        T::from_i32_spec(f.0)
    } else {
        T::fraction_spec(f.0, f.1)
    }
}

/// The stages of the step are consistent: for every stage `s`, its weights are
/// the exact fractions of `rk_beta_frac(s)`, and the time at which it evaluates
/// `f`, `t + rk_alpha(s) h`, has `rk_alpha(s)` equal to the sum of those weights
/// (in lowest terms), so that the step integrates `y' = g(t)` for any `g` linear
/// in `t` exactly: in particular `y' = t` from `y` gives `y + t h + h^2 / 2`.
pub proof fn lemma_rk_stage_times_are_weight_sums<T: FloatNumber>()
    ensures
        forall|s: int|
            1 <= s <= 5 ==> {
                let w = rk_beta_frac(s);
                let sum = frac_sum(w);
                &&& rk_beta::<T>(s).len() == w.len() == s
                &&& forall|j: int| 0 <= j < s ==> #[trigger] rk_beta::<T>(s)[j] == frac_value::<T>(w[j])
                &&& exists|n: i32, d: i32|
                    d > 0 && #[trigger] rk_alpha::<T>(s) == frac_value::<T>((n, d)) && n * sum.1 == sum.0 * d
            },
{
    assert(rk_alpha::<T>(1) == frac_value::<T>((2i32, 9i32)));
    assert(rk_alpha::<T>(2) == frac_value::<T>((1i32, 3i32)));
    assert(rk_alpha::<T>(3) == frac_value::<T>((3i32, 4i32)));
    assert(rk_alpha::<T>(4) == frac_value::<T>((1i32, 1i32)));
    assert(rk_alpha::<T>(5) == frac_value::<T>((5i32, 6i32)));
    {
        let w0 = Seq::<(i32, i32)>::empty();
        assert(frac_sum(w0) == (0int, 1int));
        let w1 = w0.push((2i32, 9i32));
        lemma_frac_sum_push(w0, (2i32, 9i32));
        let pk1 = frac_sum(w0);
        assert(frac_sum(w1) == (2int, 9int)) by (nonlinear_arith)
            requires
                pk1 == (0int, 1int),
                frac_sum(w1) == (pk1.0 * 9 + 2 * pk1.1, pk1.1 * 9),
        ;
        assert(rk_beta_frac(1) =~= w1);
    }
    {
        let w0 = Seq::<(i32, i32)>::empty();
        assert(frac_sum(w0) == (0int, 1int));
        let w1 = w0.push((1i32, 12i32));
        lemma_frac_sum_push(w0, (1i32, 12i32));
        let pk1 = frac_sum(w0);
        assert(frac_sum(w1) == (1int, 12int)) by (nonlinear_arith)
            requires
                pk1 == (0int, 1int),
                frac_sum(w1) == (pk1.0 * 12 + 1 * pk1.1, pk1.1 * 12),
        ;
        let w2 = w1.push((1i32, 4i32));
        lemma_frac_sum_push(w1, (1i32, 4i32));
        let pk2 = frac_sum(w1);
        assert(frac_sum(w2) == (16int, 48int)) by (nonlinear_arith)
            requires
                pk2 == (1int, 12int),
                frac_sum(w2) == (pk2.0 * 4 + 1 * pk2.1, pk2.1 * 4),
        ;
        assert(rk_beta_frac(2) =~= w2);
    }
    {
        let w0 = Seq::<(i32, i32)>::empty();
        assert(frac_sum(w0) == (0int, 1int));
        let w1 = w0.push((69i32, 128i32));
        lemma_frac_sum_push(w0, (69i32, 128i32));
        let pk1 = frac_sum(w0);
        assert(frac_sum(w1) == (69int, 128int)) by (nonlinear_arith)
            requires
                pk1 == (0int, 1int),
                frac_sum(w1) == (pk1.0 * 128 + 69 * pk1.1, pk1.1 * 128),
        ;
        let w2 = w1.push((-243i32, 128i32));
        lemma_frac_sum_push(w1, (-243i32, 128i32));
        let pk2 = frac_sum(w1);
        assert(frac_sum(w2) == (-22272int, 16384int)) by (nonlinear_arith)
            requires
                pk2 == (69int, 128int),
                frac_sum(w2) == (pk2.0 * 128 + -243 * pk2.1, pk2.1 * 128),
        ;
        let w3 = w2.push((135i32, 64i32));
        lemma_frac_sum_push(w2, (135i32, 64i32));
        let pk3 = frac_sum(w2);
        assert(frac_sum(w3) == (786432int, 1048576int)) by (nonlinear_arith)
            requires
                pk3 == (-22272int, 16384int),
                frac_sum(w3) == (pk3.0 * 64 + 135 * pk3.1, pk3.1 * 64),
        ;
        assert(rk_beta_frac(3) =~= w3);
    }
    {
        let w0 = Seq::<(i32, i32)>::empty();
        assert(frac_sum(w0) == (0int, 1int));
        let w1 = w0.push((-17i32, 12i32));
        lemma_frac_sum_push(w0, (-17i32, 12i32));
        let pk1 = frac_sum(w0);
        assert(frac_sum(w1) == (-17int, 12int)) by (nonlinear_arith)
            requires
                pk1 == (0int, 1int),
                frac_sum(w1) == (pk1.0 * 12 + -17 * pk1.1, pk1.1 * 12),
        ;
        let w2 = w1.push((27i32, 4i32));
        lemma_frac_sum_push(w1, (27i32, 4i32));
        let pk2 = frac_sum(w1);
        assert(frac_sum(w2) == (256int, 48int)) by (nonlinear_arith)
            requires
                pk2 == (-17int, 12int),
                frac_sum(w2) == (pk2.0 * 4 + 27 * pk2.1, pk2.1 * 4),
        ;
        let w3 = w2.push((-27i32, 5i32));
        lemma_frac_sum_push(w2, (-27i32, 5i32));
        let pk3 = frac_sum(w2);
        assert(frac_sum(w3) == (-16int, 240int)) by (nonlinear_arith)
            requires
                pk3 == (256int, 48int),
                frac_sum(w3) == (pk3.0 * 5 + -27 * pk3.1, pk3.1 * 5),
        ;
        let w4 = w3.push((16i32, 15i32));
        lemma_frac_sum_push(w3, (16i32, 15i32));
        let pk4 = frac_sum(w3);
        assert(frac_sum(w4) == (3600int, 3600int)) by (nonlinear_arith)
            requires
                pk4 == (-16int, 240int),
                frac_sum(w4) == (pk4.0 * 15 + 16 * pk4.1, pk4.1 * 15),
        ;
        assert(rk_beta_frac(4) =~= w4);
    }
    {
        let w0 = Seq::<(i32, i32)>::empty();
        assert(frac_sum(w0) == (0int, 1int));
        let w1 = w0.push((65i32, 432i32));
        lemma_frac_sum_push(w0, (65i32, 432i32));
        let pk1 = frac_sum(w0);
        assert(frac_sum(w1) == (65int, 432int)) by (nonlinear_arith)
            requires
                pk1 == (0int, 1int),
                frac_sum(w1) == (pk1.0 * 432 + 65 * pk1.1, pk1.1 * 432),
        ;
        let w2 = w1.push((-5i32, 16i32));
        lemma_frac_sum_push(w1, (-5i32, 16i32));
        let pk2 = frac_sum(w1);
        assert(frac_sum(w2) == (-1120int, 6912int)) by (nonlinear_arith)
            requires
                pk2 == (65int, 432int),
                frac_sum(w2) == (pk2.0 * 16 + -5 * pk2.1, pk2.1 * 16),
        ;
        let w3 = w2.push((13i32, 16i32));
        lemma_frac_sum_push(w2, (13i32, 16i32));
        let pk3 = frac_sum(w2);
        assert(frac_sum(w3) == (71936int, 110592int)) by (nonlinear_arith)
            requires
                pk3 == (-1120int, 6912int),
                frac_sum(w3) == (pk3.0 * 16 + 13 * pk3.1, pk3.1 * 16),
        ;
        let w4 = w3.push((4i32, 27i32));
        lemma_frac_sum_push(w3, (4i32, 27i32));
        let pk4 = frac_sum(w3);
        assert(frac_sum(w4) == (2384640int, 2985984int)) by (nonlinear_arith)
            requires
                pk4 == (71936int, 110592int),
                frac_sum(w4) == (pk4.0 * 27 + 4 * pk4.1, pk4.1 * 27),
        ;
        let w5 = w4.push((5i32, 144i32));
        lemma_frac_sum_push(w4, (5i32, 144i32));
        let pk5 = frac_sum(w4);
        assert(frac_sum(w5) == (358318080int, 429981696int)) by (nonlinear_arith)
            requires
                pk5 == (2384640int, 2985984int),
                frac_sum(w5) == (pk5.0 * 144 + 5 * pk5.1, pk5.1 * 144),
        ;
        assert(rk_beta_frac(5) =~= w5);
    }
}

/// The fourth order weights of the six stages.
pub open spec fn rk_c4<T: FloatNumber>() -> Seq<T> {
    seq![
        T::fraction_spec(1, 9),
        T::zero_spec(),
        T::fraction_spec(9, 20),
        T::fraction_spec(16, 45),
        T::fraction_spec(1, 12),
        T::zero_spec(),
    ]
}

/// The fifth order weights of the six stages.
pub open spec fn rk_c5<T: FloatNumber>() -> Seq<T> {
    seq![
        T::fraction_spec(47, 450),
        T::zero_spec(),
        T::fraction_spec(12, 25),
        T::fraction_spec(32, 225),
        T::fraction_spec(1, 30),
        T::fraction_spec(6, 25),
    ]
}

/// Entry `i` of each stage vector.
pub open spec fn rk_column<T>(ks: Seq<Seq<T>>, i: int) -> Seq<T> {
    Seq::new(ks.len(), |j: int| ks[j][i])
}

/// The point at which stage `s` (from 1) evaluates `f`.
pub open spec fn rk_point<T: FloatNumber>(x: Seq<T>, ks: Seq<Seq<T>>, s: int) -> Seq<T> {
    Seq::new(x.len(), |i: int| rk_combine(x[i], rk_column(ks, i), rk_beta::<T>(s), s as nat))
}

/// `h f`, entry by entry.
pub open spec fn rk_scaled<T: FloatNumber>(f: Seq<T>, h: T) -> Seq<T> {
    Seq::new(f.len(), |i: int| f[i].mul_spec(h))
}

/// The first `m` stage vectors `k` (each `h f` at the stage's point and time) of a
/// step of size `h` from `x` at time `t`, or the error of the first failing evaluation.
pub open spec fn rk_stages<T: FloatNumber, F: Ode<T>>(ode: F, x: Seq<T>, t: T, h: T, m: nat) -> Result<
    Seq<Seq<T>>,
    F::Error,
>
    decreases m,
{
    if m == 0 {
        Ok(Seq::empty())
    } else {
        match rk_stages(ode, x, t, h, (m - 1) as nat) {
            Err(e) => Err(e),
            Ok(ks) => {
                let s = m - 1;
                let pt = if s == 0 { x } else { rk_point(x, ks, s) };
                let ts = if s == 0 { t } else { t.add_spec(rk_alpha::<T>(s).mul_spec(h)) };
                match ode.f_at(pt, ts) {
                    Err(e) => Err(e),
                    Ok(f) => Ok(ks.push(rk_scaled(f, h))),
                }
            },
        }
    }
}

/// `(c5[0] - c4[0]) k[0] + ...` over the first `m` stages, added from the left onto 0.
pub open spec fn rk_error_sum<T: FloatNumber>(k: Seq<T>, m: nat) -> T
    decreases m,
{
    if m == 0 {
        T::zero_spec()
    } else {
        let j = m - 1;
        rk_error_sum(k, (m - 1) as nat).add_spec(rk_c5::<T>()[j].sub_spec(rk_c4::<T>()[j]).mul_spec(k[j]))
    }
}

/// The largest error estimate over the first `m` unknowns, from `EPSILON`.
pub open spec fn rk_trunc_max<T: FloatNumber>(ks: Seq<Seq<T>>, m: nat) -> T
    decreases m,
{
    if m == 0 {
        T::epsilon_spec()
    } else {
        rk_trunc_max(ks, (m - 1) as nat).max_spec(rk_error_sum(rk_column(ks, m - 1), 6).abs_spec())
    }
}

/// The fifth order solution after the step.
pub open spec fn rk_next<T: FloatNumber>(x: Seq<T>, ks: Seq<Seq<T>>) -> Seq<T> {
    Seq::new(x.len(), |i: int| rk_combine(x[i], rk_column(ks, i), rk_c5::<T>(), 6))
}

/// The step size proposed after an error estimate `truncmax`:
/// `0.9 h (sqrt(EPSILON) / truncmax)^(1/5)`.
pub open spec fn rk_next_dt<T: FloatNumber>(h: T, truncmax: T) -> T {
    T::fraction_spec(9, 10).mul_spec(h).mul_spec(
        T::epsilon_spec().sqrt_spec().div_spec(truncmax).powf_spec(T::fraction_spec(2, 10)),
    )
}

/// `tmp = x + k1 b[0] + k2 b[1] + ...`, over as many stages as `b` has weights.
fn stage_point<T: FloatNumber>(tmp: &mut [T], x: &[T], k1: &[T], k2: &[T], k3: &[T], k4: &[T], k5: &[T], b: &[T])
    requires
        old(tmp)@.len() == x@.len(),
        k1@.len() == x@.len(),
        k2@.len() == x@.len(),
        k3@.len() == x@.len(),
        k4@.len() == x@.len(),
        k5@.len() == x@.len(),
        b@.len() <= 5,
    ensures
        final(tmp)@ == Seq::new(
            x@.len(),
            |i: int| rk_combine(x@[i], seq![k1@[i], k2@[i], k3@[i], k4@[i], k5@[i]], b@, b@.len()),
        ),
{
    let n = tmp.len();
    let m = b.len();
    let mut i: usize = 0;
    while i < n
        invariant
            n == tmp@.len(),
            n == x@.len(),
            n == k1@.len(),
            n == k2@.len(),
            n == k3@.len(),
            n == k4@.len(),
            n == k5@.len(),
            m == b@.len(),
            m <= 5,
            i <= n,
            forall|q: int|
                0 <= q < i ==> #[trigger] tmp@[q] == rk_combine(
                    x@[q],
                    seq![k1@[q], k2@[q], k3@[q], k4@[q], k5@[q]],
                    b@,
                    m as nat,
                ),
        decreases n - i,
    {
        let k = [k1[i], k2[i], k3[i], k4[i], k5[i]];
        let ghost ks = seq![k1@[i as int], k2@[i as int], k3@[i as int], k4@[i as int], k5@[i as int]];
        proof {
            assert(k@ =~= ks);
        }
        let mut acc = x[i];
        let mut j: usize = 0;
        while j < m
            invariant
                m == b@.len(),
                m <= 5,
                k@ == ks,
                j <= m,
                acc == rk_combine(x@[i as int], ks, b@, j as nat),
            decreases m - j,
        {
            acc = acc.float_add(k[j].float_mul(b[j]));
            j = j + 1;
        }
        tmp[i] = acc;
        i = i + 1;
    }
    proof {
        assert(tmp@ =~= Seq::new(
            x@.len(),
            |q: int| rk_combine(x@[q], seq![k1@[q], k2@[q], k3@[q], k4@[q], k5@[q]], b@, b@.len()),
        ));
    }
}

/// `k = h k`, entry by entry.
fn scale_in_place<T: FloatNumber>(k: &mut [T], h: T)
    ensures
        final(k)@ == rk_scaled(old(k)@, h),
{
    let n = k.len();
    let mut i: usize = 0;
    while i < n
        invariant
            n == k@.len(),
            n == old(k)@.len(),
            i <= n,
            forall|q: int| 0 <= q < i ==> #[trigger] k@[q] == old(k)@[q].mul_spec(h),
            forall|q: int| i <= q < n ==> #[trigger] k@[q] == old(k)@[q],
        decreases n - i,
    {
        k[i] = k[i].float_mul(h);
        i = i + 1;
    }
    proof {
        assert(k@ =~= rk_scaled(old(k)@, h));
    }
}

/// Writes the fifth order solution into `tmp` and returns the largest error estimate.
fn rk_finish<T: FloatNumber>(
    tmp: &mut [T],
    x: &[T],
    k1: &[T],
    k2: &[T],
    k3: &[T],
    k4: &[T],
    k5: &[T],
    k6: &[T],
    c4: &[T],
    c5: &[T],
) -> (truncmax: T)
    requires
        old(tmp)@.len() == x@.len(),
        k1@.len() == x@.len(),
        k2@.len() == x@.len(),
        k3@.len() == x@.len(),
        k4@.len() == x@.len(),
        k5@.len() == x@.len(),
        k6@.len() == x@.len(),
        c4@ == rk_c4::<T>(),
        c5@ == rk_c5::<T>(),
    ensures
        final(tmp)@ == rk_next(x@, seq![k1@, k2@, k3@, k4@, k5@, k6@]),
        truncmax == rk_trunc_max(seq![k1@, k2@, k3@, k4@, k5@, k6@], x@.len()),
{
    let ghost ks = seq![k1@, k2@, k3@, k4@, k5@, k6@];
    let n = tmp.len();
    let mut truncmax = T::epsilon();
    let mut i: usize = 0;
    while i < n
        invariant
            n == tmp@.len(),
            n == x@.len(),
            n == k1@.len(),
            n == k2@.len(),
            n == k3@.len(),
            n == k4@.len(),
            n == k5@.len(),
            n == k6@.len(),
            c4@ == rk_c4::<T>(),
            c5@ == rk_c5::<T>(),
            ks == seq![k1@, k2@, k3@, k4@, k5@, k6@],
            i <= n,
            forall|q: int| 0 <= q < i ==> #[trigger] tmp@[q] == rk_combine(x@[q], rk_column(ks, q), rk_c5::<T>(), 6),
            truncmax == rk_trunc_max(ks, i as nat),
        decreases n - i,
    {
        let k = [k1[i], k2[i], k3[i], k4[i], k5[i], k6[i]];
        proof {
            assert(k@ =~= rk_column(ks, i as int));
        }
        let mut truncerror = T::zero();
        let mut acc = x[i];
        let mut j: usize = 0;
        while j < 6
            invariant
                k@ == rk_column(ks, i as int),
                k@.len() == 6,
                c4@ == rk_c4::<T>(),
                c5@ == rk_c5::<T>(),
                j <= 6,
                acc == rk_combine(x@[i as int], k@, c5@, j as nat),
                truncerror == rk_error_sum(k@, j as nat),
            decreases 6 - j,
        {
            acc = acc.float_add(k[j].float_mul(c5[j]));
            truncerror = truncerror.float_add(c5[j].float_sub(c4[j]).float_mul(k[j]));
            j = j + 1;
        }
        tmp[i] = acc;
        let truncerror = truncerror.float_abs();
        truncmax = truncmax.float_max(truncerror);
        i = i + 1;
    }
    proof {
        assert(tmp@ =~= rk_next(x@, ks));
    }
    truncmax
}

// Explicit adaptive Runge-Kutta 5 solver
// Good for non-stiff problems
pub struct ExplicitRk45<T, F: Ode<T>> {
    ode: F,
    solution: DynamicVector<T>,
    solution_tmp: DynamicVector<T>,
    k1: DynamicVector<T>,
    k2: DynamicVector<T>,
    k3: DynamicVector<T>,
    k4: DynamicVector<T>,
    k5: DynamicVector<T>,
    k6: DynamicVector<T>,
    t: T,
    dt: T,
    initial_dt: T,
    n_steps: usize,
    min_dt: T,
    te_tolerance: T,
}

impl<T, F: Ode<T>> ExplicitRk45<T, F> where T: FloatNumber {
    pub closed spec fn ode_spec(&self) -> F {
        self.ode
    }

    /// Below this step size the error estimate is ignored.
    pub closed spec fn min_dt_spec(&self) -> T {
        self.min_dt
    }

    /// The step size that `reinit` restores: the one the solver was created with.
    pub closed spec fn initial_dt_spec(&self) -> T {
        self.initial_dt
    }

    /// The error tolerance given at construction (the steps are accepted against
    /// `sqrt(EPSILON)`).
    pub closed spec fn te_tolerance_spec(&self) -> T {
        self.te_tolerance
    }

    /// Every buffer has one entry per unknown.
    pub closed spec fn wf(&self) -> bool {
        let n = self.ode.dim();
        &&& self.solution.elems().len() == n
        &&& self.solution_tmp.elems().len() == n
        &&& self.k1.elems().len() == n
        &&& self.k2.elems().len() == n
        &&& self.k3.elems().len() == n
        &&& self.k4.elems().len() == n
        &&& self.k5.elems().len() == n
        &&& self.k6.elems().len() == n
    }

    pub fn new(ode: F) -> (s: Self)
        ensures
            s.wf(),
            s.ode_spec() == ode,
            s.dim() == ode.dim(),
            s.solution_seq() == Seq::new(ode.dim(), |i: int| T::zero_spec()),
            s.time_spec() == T::zero_spec(),
            s.step_size_spec() == T::fraction_spec(1, 1000000),
            s.initial_dt_spec() == T::fraction_spec(1, 1000000),
            s.steps_spec() == 0,
            s.min_dt_spec() == T::epsilon_spec().mul_spec(T::fraction_spec(1, 1000000)),
            s.te_tolerance_spec() == T::fraction_spec(1, 1000000),
    {
        let size = ode.problem_size();
        let dt = T::fraction(1, 1000000);
        let min_dt = T::epsilon().float_mul(T::fraction(1, 1000000));
        let te_tolerance = T::fraction(1, 1000000);
        Self {
            ode,
            solution: DynamicVector::new(T::zero(), size),
            solution_tmp: DynamicVector::new(T::zero(), size),
            k1: DynamicVector::new(T::zero(), size),
            k2: DynamicVector::new(T::zero(), size),
            k3: DynamicVector::new(T::zero(), size),
            k4: DynamicVector::new(T::zero(), size),
            k5: DynamicVector::new(T::zero(), size),
            k6: DynamicVector::new(T::zero(), size),
            t: T::zero(),
            dt,
            initial_dt: dt,
            n_steps: 0,
            min_dt,
            te_tolerance,
        }
    }

    pub fn with_t0(self, t0: T) -> (s: Self)
        ensures
            s.wf() == self.wf(),
            s.ode_spec() == self.ode_spec(),
            s.solution_seq() == self.solution_seq(),
            s.time_spec() == t0,
            s.step_size_spec() == self.step_size_spec(),
            s.initial_dt_spec() == self.initial_dt_spec(),
            s.steps_spec() == self.steps_spec(),
            s.min_dt_spec() == self.min_dt_spec(),
            s.te_tolerance_spec() == self.te_tolerance_spec(),
    {
        let mut s = self;
        s.t = t0;
        s
    }

    pub fn with_dt0(self, dt0: T) -> (s: Self)
        ensures
            s.wf() == self.wf(),
            s.ode_spec() == self.ode_spec(),
            s.solution_seq() == self.solution_seq(),
            s.time_spec() == self.time_spec(),
            s.step_size_spec() == dt0,
            s.initial_dt_spec() == dt0,
            s.steps_spec() == self.steps_spec(),
            s.min_dt_spec() == self.min_dt_spec(),
            s.te_tolerance_spec() == self.te_tolerance_spec(),
    {
        let mut s = self;
        s.dt = dt0;
        s.initial_dt = dt0;
        s
    }

    /// Sets entry `i` of the solution to `guess_function(i)`.
    pub fn with_initial_guess(self, guess_function: impl Fn(usize) -> T) -> (s: Self)
        requires
            self.wf(),
            forall|i: usize| i < self.dim() ==> call_requires(guess_function, (i,)),
        ensures
            s.wf(),
            s.ode_spec() == self.ode_spec(),
            s.solution_seq().len() == self.dim(),
            forall|i: usize| i < self.dim() ==> call_ensures(guess_function, (i,), #[trigger] s.solution_seq()[i as int]),
            s.time_spec() == self.time_spec(),
            s.step_size_spec() == self.step_size_spec(),
            s.initial_dt_spec() == self.initial_dt_spec(),
            s.steps_spec() == self.steps_spec(),
            s.min_dt_spec() == self.min_dt_spec(),
            s.te_tolerance_spec() == self.te_tolerance_spec(),
    {
        let mut s = self;
        let n = s.solution.len();
        let d = s.solution.data_mut();
        let mut i: usize = 0;
        while i < n
            invariant
                n == d@.len(),
                forall|q: usize| q < n ==> call_requires(guess_function, (q,)),
                i <= n,
                forall|q: usize| q < i ==> call_ensures(guess_function, (q,), #[trigger] d@[q as int]),
            decreases n - i,
        {
            d[i] = guess_function(i);
            i = i + 1;
        }
        s
    }

    pub fn with_min_dt(self, min_dt: T) -> (s: Self)
        ensures
            s.wf() == self.wf(),
            s.ode_spec() == self.ode_spec(),
            s.solution_seq() == self.solution_seq(),
            s.time_spec() == self.time_spec(),
            s.step_size_spec() == self.step_size_spec(),
            s.initial_dt_spec() == self.initial_dt_spec(),
            s.steps_spec() == self.steps_spec(),
            s.min_dt_spec() == min_dt,
            s.te_tolerance_spec() == self.te_tolerance_spec(),
    {
        let mut s = self;
        s.min_dt = min_dt;
        s
    }

    pub fn with_tolerance(self, tol: T) -> (s: Self)
        ensures
            s.wf() == self.wf(),
            s.ode_spec() == self.ode_spec(),
            s.solution_seq() == self.solution_seq(),
            s.time_spec() == self.time_spec(),
            s.step_size_spec() == self.step_size_spec(),
            s.initial_dt_spec() == self.initial_dt_spec(),
            s.steps_spec() == self.steps_spec(),
            s.min_dt_spec() == self.min_dt_spec(),
            s.te_tolerance_spec() == tol,
    {
        let mut s = self;
        s.te_tolerance = tol;
        s
    }
}

impl<T, F: Ode<T>> Solver<T> for ExplicitRk45<T, F> where T: FloatNumber {
    type Error = F::Error;

    closed spec fn well_formed(&self) -> bool {
        self.wf()
    }

    closed spec fn dim(&self) -> nat {
        self.ode.dim()
    }

    closed spec fn solution_seq(&self) -> Seq<T> {
        self.solution.elems()
    }

    closed spec fn time_spec(&self) -> T {
        self.t
    }

    closed spec fn steps_spec(&self) -> usize {
        self.n_steps
    }

    closed spec fn step_size_spec(&self) -> T {
        self.dt
    }

    fn solution<'a>(&'a self) -> (v: VectorView<'a, T>) {
        self.solution.view()
    }

    fn time(&self) -> (t: T) {
        self.t
    }

    fn step_size(&self) -> (dt: T) {
        self.dt
    }

    fn set_step_size(&mut self, dt: T)
        ensures
            final(self).initial_dt_spec() == old(self).initial_dt_spec(),
            final(self).min_dt_spec() == old(self).min_dt_spec(),
            final(self).te_tolerance_spec() == old(self).te_tolerance_spec(),
            final(self).ode_spec() == old(self).ode_spec(),
    {
        self.dt = dt;
    }

    fn steps(&self) -> (n: usize) {
        self.n_steps
    }

    /// Besides the solution and the time, restores the step size the solver was
    /// created with and the step count of a new solver.
    fn reinit(&mut self, initial_solution: &impl Vector<T>, time: T)
        ensures
            final(self).step_size_spec() == old(self).initial_dt_spec(),
            final(self).initial_dt_spec() == old(self).initial_dt_spec(),
            final(self).ode_spec() == old(self).ode_spec(),
            final(self).min_dt_spec() == old(self).min_dt_spec(),
            final(self).te_tolerance_spec() == old(self).te_tolerance_spec(),
    {
        let g = initial_solution.data();
        let n = self.solution.len();
        let d = self.solution.data_mut();
        let mut i: usize = 0;
        while i < n
            invariant
                n == d@.len(),
                g@ == initial_solution.elems(),
                g@.len() >= n,
                i <= n,
                forall|k: int| 0 <= k < i ==> #[trigger] d@[k] == g@[k],
            decreases n - i,
        {
            d[i] = g[i];
            i = i + 1;
        }
        proof {
            assert(d@ =~= g@.take(n as int));
        }
        self.t = time;
        self.dt = self.initial_dt;
        self.n_steps = 0;
    }
}

/// Once a stage fails, the later ones do not run.
pub proof fn lemma_rk_stages_err<T: FloatNumber, F: Ode<T>>(ode: F, x: Seq<T>, t: T, h: T, a: nat, b: nat)
    requires
        a <= b,
        rk_stages(ode, x, t, h, a) is Err,
    ensures
        rk_stages(ode, x, t, h, b) == rk_stages(ode, x, t, h, a),
    decreases b - a,
{
    if a < b {
        lemma_rk_stages_err(ode, x, t, h, a, (b - 1) as nat);
    }
}

/// What `stage_point` computes with the stage vectors in its five slots is the
/// point of stage `s`.
proof fn lemma_stage_point<T: FloatNumber>(
    x: Seq<T>,
    ks: Seq<Seq<T>>,
    s: int,
    k1: Seq<T>,
    k2: Seq<T>,
    k3: Seq<T>,
    k4: Seq<T>,
    k5: Seq<T>,
    b: Seq<T>,
)
    requires
        1 <= s <= 5,
        ks.len() == s,
        b == rk_beta::<T>(s),
        k1.len() == x.len(),
        k2.len() == x.len(),
        k3.len() == x.len(),
        k4.len() == x.len(),
        k5.len() == x.len(),
        forall|j: int| 0 <= j < s ==> #[trigger] ks[j] == seq![k1, k2, k3, k4, k5][j],
    ensures
        Seq::new(x.len(), |i: int| rk_combine(x[i], seq![k1[i], k2[i], k3[i], k4[i], k5[i]], b, b.len()))
            == rk_point(x, ks, s),
{
    assert(b.len() == s);
    assert forall|i: int| 0 <= i < x.len() implies rk_combine(
        x[i],
        seq![k1[i], k2[i], k3[i], k4[i], k5[i]],
        b,
        b.len(),
    ) == #[trigger] rk_point(x, ks, s)[i] by {
        assert forall|j: int| 0 <= j < s implies seq![k1[i], k2[i], k3[i], k4[i], k5[i]][j] == rk_column(ks, i)[j]
            && b[j] == rk_beta::<T>(s)[j] by {
            assert(ks[j] == seq![k1, k2, k3, k4, k5][j]);
        }
        lemma_rk_combine_prefix(
            x[i],
            seq![k1[i], k2[i], k3[i], k4[i], k5[i]],
            b,
            rk_column(ks, i),
            rk_beta::<T>(s),
            s as nat,
        );
    }
    assert(Seq::new(x.len(), |i: int| rk_combine(x[i], seq![k1[i], k2[i], k3[i], k4[i], k5[i]], b, b.len()))
        =~= rk_point(x, ks, s));
}

impl<T, F: Ode<T>> ExplicitRk45<T, F> where T: FloatNumber {
    /// One attempt at a step of size `dt` from the current solution: the six
    /// stages, the fifth order solution and the error estimate, the next step
    /// size; the step is taken (`Ok(true)`) unless the error exceeds `sqrt(EPSILON)`
    /// with the step size above its minimum (`Ok(false)`: try again).
    pub fn step_attempt(&mut self) -> (r: Result<bool, F::Error>)
        requires
            old(self).wf(),
            old(self).steps_spec() < usize::MAX,
        ensures
            final(self).wf(),
            final(self).ode_spec() == old(self).ode_spec(),
            final(self).min_dt_spec() == old(self).min_dt_spec(),
            final(self).te_tolerance_spec() == old(self).te_tolerance_spec(),
            final(self).initial_dt_spec() == old(self).initial_dt_spec(),
            match rk_stages(
                old(self).ode_spec(),
                old(self).solution_seq(),
                old(self).time_spec(),
                old(self).step_size_spec(),
                6,
            ) {
                Err(e) => {
                    &&& r == Err::<bool, F::Error>(e)
                    &&& final(self).solution_seq() == old(self).solution_seq()
                    &&& final(self).time_spec() == old(self).time_spec()
                    &&& final(self).step_size_spec() == old(self).step_size_spec()
                    &&& final(self).steps_spec() == old(self).steps_spec()
                },
                Ok(ks) => {
                    let truncmax = rk_trunc_max(ks, old(self).dim());
                    let hnew = rk_next_dt(old(self).step_size_spec(), truncmax);
                    let at_min = hnew.lt_spec(old(self).min_dt_spec());
                    let accepted = !(T::epsilon_spec().sqrt_spec().lt_spec(truncmax) && !at_min);
                    &&& r == Ok::<bool, F::Error>(accepted)
                    &&& final(self).step_size_spec() == if at_min { old(self).min_dt_spec() } else { hnew }
                    &&& !accepted ==> {
                        &&& final(self).solution_seq() == old(self).solution_seq()
                        &&& final(self).time_spec() == old(self).time_spec()
                        &&& final(self).steps_spec() == old(self).steps_spec()
                    }
                    &&& accepted ==> {
                        &&& final(self).solution_seq() == rk_next(old(self).solution_seq(), ks)
                        &&& final(self).time_spec() == old(self).time_spec().add_spec(old(self).step_size_spec())
                        &&& final(self).steps_spec() == old(self).steps_spec() + 1
                    }
                },
            },
    {
        let t = self.t;
        let h = self.dt;
        let ghost x = self.solution.elems();
        let ghost ode = self.ode;
        let ghost n = x.len();
        proof {
            assert(rk_stages(ode, x, t, h, 0) == Ok::<Seq<Seq<T>>, F::Error>(Seq::empty()));
        }
        // step 0, compute k1
        match self.ode.eval_f(&mut self.k1, &self.solution, t) {
            Ok(()) => {},
            Err(e) => {
                proof {
                    assert(rk_stages(ode, x, t, h, 1) == Err::<Seq<Seq<T>>, F::Error>(e));
                    lemma_rk_stages_err(ode, x, t, h, 1, 6);
                }
                return Err(e);
            },
        }
        scale_in_place(self.k1.data_mut(), h);
        let ghost ks1 = seq![self.k1.elems()];
        proof {
            assert(ks1 =~= Seq::<Seq<T>>::empty().push(self.k1.elems()));
            assert(rk_stages(ode, x, t, h, 1) == Ok::<Seq<Seq<T>>, F::Error>(ks1));
        }
        // step 1, compute k2
        let tk = t.float_add(T::fraction(2, 9).float_mul(h));
        {
            let b = [T::fraction(2, 9)];
            let k1 = self.k1.data();
            stage_point(self.solution_tmp.data_mut(), self.solution.data(), k1, k1, k1, k1, k1, &b);
            proof {
                assert(b@ =~= rk_beta::<T>(1));
                lemma_stage_point(x, ks1, 1, k1@, k1@, k1@, k1@, k1@, b@);
            }
        }
        match self.ode.eval_f(&mut self.k2, &self.solution_tmp, tk) {
            Ok(()) => {},
            Err(e) => {
                proof {
                    assert(rk_stages(ode, x, t, h, 2) == Err::<Seq<Seq<T>>, F::Error>(e));
                    lemma_rk_stages_err(ode, x, t, h, 2, 6);
                }
                return Err(e);
            },
        }
        scale_in_place(self.k2.data_mut(), h);
        let ghost ks2 = seq![self.k1.elems(), self.k2.elems()];
        proof {
            assert(ks2 =~= ks1.push(self.k2.elems()));
            assert(rk_stages(ode, x, t, h, 2) == Ok::<Seq<Seq<T>>, F::Error>(ks2));
        }
        // step 2, compute k3
        let tk = t.float_add(T::fraction(1, 3).float_mul(h));
        {
            let b = [T::fraction(1, 12), T::fraction(1, 4)];
            let k1 = self.k1.data();
            let k2 = self.k2.data();
            stage_point(self.solution_tmp.data_mut(), self.solution.data(), k1, k2, k1, k1, k1, &b);
            proof {
                assert(b@ =~= rk_beta::<T>(2));
                lemma_stage_point(x, ks2, 2, k1@, k2@, k1@, k1@, k1@, b@);
            }
        }
        match self.ode.eval_f(&mut self.k3, &self.solution_tmp, tk) {
            Ok(()) => {},
            Err(e) => {
                proof {
                    assert(rk_stages(ode, x, t, h, 3) == Err::<Seq<Seq<T>>, F::Error>(e));
                    lemma_rk_stages_err(ode, x, t, h, 3, 6);
                }
                return Err(e);
            },
        }
        scale_in_place(self.k3.data_mut(), h);
        let ghost ks3 = seq![self.k1.elems(), self.k2.elems(), self.k3.elems()];
        proof {
            assert(ks3 =~= ks2.push(self.k3.elems()));
            assert(rk_stages(ode, x, t, h, 3) == Ok::<Seq<Seq<T>>, F::Error>(ks3));
        }
        // step 3, compute k4
        let tk = t.float_add(T::fraction(3, 4).float_mul(h));
        {
            let b = [T::fraction(69, 128), T::fraction(-243, 128), T::fraction(135, 64)];
            let k1 = self.k1.data();
            let k2 = self.k2.data();
            let k3 = self.k3.data();
            stage_point(self.solution_tmp.data_mut(), self.solution.data(), k1, k2, k3, k1, k1, &b);
            proof {
                assert(b@ =~= rk_beta::<T>(3));
                lemma_stage_point(x, ks3, 3, k1@, k2@, k3@, k1@, k1@, b@);
            }
        }
        match self.ode.eval_f(&mut self.k4, &self.solution_tmp, tk) {
            Ok(()) => {},
            Err(e) => {
                proof {
                    assert(rk_stages(ode, x, t, h, 4) == Err::<Seq<Seq<T>>, F::Error>(e));
                    lemma_rk_stages_err(ode, x, t, h, 4, 6);
                }
                return Err(e);
            },
        }
        scale_in_place(self.k4.data_mut(), h);
        let ghost ks4 = seq![self.k1.elems(), self.k2.elems(), self.k3.elems(), self.k4.elems()];
        proof {
            assert(ks4 =~= ks3.push(self.k4.elems()));
            assert(rk_stages(ode, x, t, h, 4) == Ok::<Seq<Seq<T>>, F::Error>(ks4));
        }
        // step 4, compute k5
        let tk = t.float_add(T::float_from_i32(1).float_mul(h));
        {
            let b = [T::fraction(-17, 12), T::fraction(27, 4), T::fraction(-27, 5), T::fraction(16, 15)];
            let k1 = self.k1.data();
            let k2 = self.k2.data();
            let k3 = self.k3.data();
            let k4 = self.k4.data();
            stage_point(self.solution_tmp.data_mut(), self.solution.data(), k1, k2, k3, k4, k1, &b);
            proof {
                assert(b@ =~= rk_beta::<T>(4));
                lemma_stage_point(x, ks4, 4, k1@, k2@, k3@, k4@, k1@, b@);
            }
        }
        match self.ode.eval_f(&mut self.k5, &self.solution_tmp, tk) {
            Ok(()) => {},
            Err(e) => {
                proof {
                    assert(rk_stages(ode, x, t, h, 5) == Err::<Seq<Seq<T>>, F::Error>(e));
                    lemma_rk_stages_err(ode, x, t, h, 5, 6);
                }
                return Err(e);
            },
        }
        scale_in_place(self.k5.data_mut(), h);
        let ghost ks5 = seq![self.k1.elems(), self.k2.elems(), self.k3.elems(), self.k4.elems(), self.k5.elems()];
        proof {
            assert(ks5 =~= ks4.push(self.k5.elems()));
            assert(rk_stages(ode, x, t, h, 5) == Ok::<Seq<Seq<T>>, F::Error>(ks5));
        }
        // step 5, compute k6
        let tk = t.float_add(T::fraction(5, 6).float_mul(h));
        {
            let b = [
                T::fraction(65, 432),
                T::fraction(-5, 16),
                T::fraction(13, 16),
                T::fraction(4, 27),
                T::fraction(5, 144),
            ];
            let k1 = self.k1.data();
            let k2 = self.k2.data();
            let k3 = self.k3.data();
            let k4 = self.k4.data();
            let k5 = self.k5.data();
            stage_point(self.solution_tmp.data_mut(), self.solution.data(), k1, k2, k3, k4, k5, &b);
            proof {
                assert(b@ =~= rk_beta::<T>(5));
                lemma_stage_point(x, ks5, 5, k1@, k2@, k3@, k4@, k5@, b@);
            }
        }
        match self.ode.eval_f(&mut self.k6, &self.solution_tmp, tk) {
            Ok(()) => {},
            Err(e) => {
                proof {
                    assert(rk_stages(ode, x, t, h, 6) == Err::<Seq<Seq<T>>, F::Error>(e));
                    lemma_rk_stages_err(ode, x, t, h, 6, 6);
                }
                return Err(e);
            },
        }
        scale_in_place(self.k6.data_mut(), h);
        let ghost ks6 = seq![
            self.k1.elems(),
            self.k2.elems(),
            self.k3.elems(),
            self.k4.elems(),
            self.k5.elems(),
            self.k6.elems(),
        ];
        proof {
            assert(ks6 =~= ks5.push(self.k6.elems()));
            assert(rk_stages(ode, x, t, h, 6) == Ok::<Seq<Seq<T>>, F::Error>(ks6));
        }
        let c_4 = [T::fraction(1, 9), T::zero(), T::fraction(9, 20), T::fraction(16, 45), T::fraction(1, 12), T::zero()];
        let c_5 = [
            T::fraction(47, 450),
            T::zero(),
            T::fraction(12, 25),
            T::fraction(32, 225),
            T::fraction(1, 30),
            T::fraction(6, 25),
        ];
        proof {
            assert(c_4@ =~= rk_c4::<T>());
            assert(c_5@ =~= rk_c5::<T>());
        }
        let truncmax = rk_finish(
            self.solution_tmp.data_mut(),
            self.solution.data(),
            self.k1.data(),
            self.k2.data(),
            self.k3.data(),
            self.k4.data(),
            self.k5.data(),
            self.k6.data(),
            &c_4,
            &c_5,
        );
        let epsilon = T::epsilon().float_sqrt();
        let hnew = T::fraction(9, 10).float_mul(h).float_mul(epsilon.float_div(truncmax).float_powf(T::fraction(2, 10)));
        self.dt = hnew;
        let mut ignore_terror = false;
        if self.dt.float_lt(self.min_dt) {
            self.dt = self.min_dt;
            ignore_terror = true;
        }
        if epsilon.float_lt(truncmax) && !ignore_terror {
            return Ok(false);
        }
        // good! swap solution
        {
            let n = self.solution.len();
            let src = self.solution_tmp.data();
            let dst = self.solution.data_mut();
            let mut i: usize = 0;
            while i < n
                invariant
                    n == dst@.len(),
                    n == src@.len(),
                    i <= n,
                    forall|q: int| 0 <= q < i ==> #[trigger] dst@[q] == src@[q],
                decreases n - i,
            {
                dst[i] = src[i];
                i = i + 1;
            }
            proof {
                assert(dst@ =~= src@);
            }
        }
        self.t = self.t.float_add(h);
        self.n_steps = self.n_steps + 1;
        Ok(true)
    }
}

} // verus!
