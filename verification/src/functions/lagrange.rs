//! Lagrange polynomials and interpolation.
use vstd::prelude::*;

use crate::num_traits::FloatNumber;

verus! {

/// The product, over `j < m` with `j != i`, of `(x - xp[j]) / (xp[i] - xp[j])`,
/// multiplied from the left onto 1.
pub open spec fn lagrange_prod<T: FloatNumber>(x: T, i: int, xp: Seq<T>, m: nat) -> T
    decreases m,
{
    if m == 0 {
        T::one_spec()
    } else {
        let prev = lagrange_prod(x, i, xp, (m - 1) as nat);
        let j = m - 1;
        if j == i {
            prev
        } else {
            prev.mul_spec(x.sub_spec(xp[j]).div_spec(xp[i].sub_spec(xp[j])))
        }
    }
}

/// The `i`-th Lagrange polynomial of the points `xp`, evaluated at `x`.
pub fn lagrange_polynomial<T>(x: T, i: usize, xp: &[T]) -> (r: T) where T: FloatNumber
    requires
        xp@.len() == 0 || i < xp@.len(),
    ensures
        r == lagrange_prod(x, i as int, xp@, xp@.len()),
{
    let mut prod = T::one();
    let mut j: usize = 0;
    while j < xp.len()
        invariant
            xp@.len() == 0 || i < xp@.len(),
            j <= xp@.len(),
            prod == lagrange_prod(x, i as int, xp@, j as nat),
        decreases xp@.len() - j,
    {
        if i != j {
            prod = prod.float_mul(x.float_sub(xp[j]).float_div(xp[i].float_sub(xp[j])));
        }
        j = j + 1;
    }
    prod
}

/// The barycentric weight of point `i`: the product, over `j < m` with
/// `j != i`, of `1 / (p[i] - p[j])`, multiplied from the left onto 1.
pub open spec fn weight_spec<T: FloatNumber>(p: Seq<T>, i: int, m: nat) -> T
    decreases m,
{
    if m == 0 {
        T::one_spec()
    } else {
        let prev = weight_spec(p, i, (m - 1) as nat);
        let j = m - 1;
        if j == i {
            prev
        } else {
            prev.mul_spec(T::one_spec().div_spec(p[i].sub_spec(p[j])))
        }
    }
}

/// The sum, over `j < m`, of `w[j] / (x - p[j])`, added from the left onto 0;
/// `None` when some `x - p[j]` is smaller than EPSILON in magnitude.
pub open spec fn bary_sum<T: FloatNumber>(p: Seq<T>, w: Seq<T>, x: T, m: nat) -> Option<T>
    decreases m,
{
    if m == 0 {
        Some(T::zero_spec())
    } else {
        match bary_sum(p, w, x, (m - 1) as nat) {
            None => None,
            Some(s) => {
                let dx = x.sub_spec(p[m - 1]);
                if dx.abs_spec().lt_spec(T::epsilon_spec()) {
                    None
                } else {
                    Some(s.add_spec(w[m - 1].div_spec(dx)))
                }
            },
        }
    }
}

/// The product, over `k < m` with `k != i` and `k != j`, of
/// `(x - p[k]) / (p[i] - p[k])`, multiplied from the left onto 1: the `i`-th
/// basis polynomial with the factor of point `j` left out.
pub open spec fn lagrange_prod_without<T: FloatNumber>(x: T, i: int, j: int, p: Seq<T>, m: nat) -> T
    decreases m,
{
    if m == 0 {
        T::one_spec()
    } else {
        let prev = lagrange_prod_without(x, i, j, p, (m - 1) as nat);
        let k = m - 1;
        if k == i || k == j {
            prev
        } else {
            prev.mul_spec(x.sub_spec(p[k]).div_spec(p[i].sub_spec(p[k])))
        }
    }
}

/// The derivative at `x` of the `i`-th basis polynomial of the points `p`
/// (over `n` points), summed over `j < m` with `j != i` from the left onto 0:
/// the sum of `prod_{k != i, j} (x - p[k]) / (p[i] - p[k])` divided by `p[i] - p[j]`.
pub open spec fn deriv_sum<T: FloatNumber>(p: Seq<T>, i: int, x: T, n: nat, m: nat) -> T
    decreases m,
{
    if m == 0 {
        T::zero_spec()
    } else {
        let prev = deriv_sum(p, i, x, n, (m - 1) as nat);
        let j = m - 1;
        if j == i {
            prev
        } else {
            prev.add_spec(lagrange_prod_without(x, i, j, p, n).div_spec(p[i].sub_spec(p[j])))
        }
    }
}

/// Barycentric interpolation over the first `m` points: `Err(yp[j])` as soon as
/// `x` is within EPSILON of a point `p[j]`, else the numerator and the
/// denominator sums of `t yp[j]` and `t`, with `t = w[j] / (x - p[j])`.
pub open spec fn interp_scan<T: FloatNumber>(p: Seq<T>, w: Seq<T>, yp: Seq<T>, x: T, m: nat) -> Result<(T, T), T>
    decreases m,
{
    if m == 0 {
        Ok((T::zero_spec(), T::zero_spec()))
    } else {
        match interp_scan(p, w, yp, x, (m - 1) as nat) {
            Err(y) => Err(y),
            Ok(nd) => {
                let xi = p[m - 1];
                if x.sub_spec(xi).abs_spec().lt_spec(T::epsilon_spec()) {
                    Err(yp[m - 1])
                } else {
                    let t = w[m - 1].div_spec(x.sub_spec(xi));
                    Ok((nd.0.add_spec(t.mul_spec(yp[m - 1])), nd.1.add_spec(t)))
                }
            },
        }
    }
}

/// Barycentric interpolation reproduces the data: at a point `x` within EPSILON
/// of node `j` and of no earlier node (for distinct nodes, at the node `p[j]`
/// itself), the interpolant of the values `yp` is `yp[j]`, whichever values are
/// given at the other nodes.
pub proof fn lemma_interp_scan_at_node<T: FloatNumber>(p: Seq<T>, w: Seq<T>, yp: Seq<T>, x: T, j: int, m: nat)
    requires
        0 <= j < m,
        j < yp.len(),
        x.sub_spec(p[j]).abs_spec().lt_spec(T::epsilon_spec()),
        forall|i: int| 0 <= i < j ==> !(#[trigger] x.sub_spec(p[i])).abs_spec().lt_spec(T::epsilon_spec()),
    ensures
        interp_scan(p, w, yp, x, m) == Err::<(T, T), T>(yp[j]),
    decreases m,
{
    if m > j + 1 {
        lemma_interp_scan_at_node(p, w, yp, x, j, (m - 1) as nat);
    } else {
        lemma_interp_scan_before_node(p, w, yp, x, j, j as nat);
    }
}

/// Before the first node within EPSILON of `x`, the scan goes on.
proof fn lemma_interp_scan_before_node<T: FloatNumber>(p: Seq<T>, w: Seq<T>, yp: Seq<T>, x: T, j: int, m: nat)
    requires
        m <= j,
        forall|i: int| 0 <= i < j ==> !(#[trigger] x.sub_spec(p[i])).abs_spec().lt_spec(T::epsilon_spec()),
    ensures
        interp_scan(p, w, yp, x, m) is Ok,
    decreases m,
{
    if m > 0 {
        lemma_interp_scan_before_node(p, w, yp, x, j, (m - 1) as nat);
        assert(!x.sub_spec(p[m - 1]).abs_spec().lt_spec(T::epsilon_spec()));
    }
}

proof fn lemma_interp_err_persists<T: FloatNumber>(p: Seq<T>, w: Seq<T>, yp: Seq<T>, x: T, a: nat, b: nat)
    requires
        a <= b,
        interp_scan(p, w, yp, x, a) is Err,
    ensures
        interp_scan(p, w, yp, x, b) == interp_scan(p, w, yp, x, a),
    decreases b - a,
{
    if a < b {
        lemma_interp_err_persists(p, w, yp, x, a, (b - 1) as nat);
    }
}

// Unidimensional lagrange polynomial basis
pub struct LagrangePolynomialBasis<T, const N: usize> {
    points: [T; N],
    weights: [T; N],
}

impl<T: FloatNumber, const N: usize> LagrangePolynomialBasis<T, N> {
    /// The interpolation points.
    pub closed spec fn pts(&self) -> Seq<T> {
        self.points@
    }

    /// The barycentric weights of the points.
    pub closed spec fn wts(&self) -> Seq<T> {
        self.weights@
    }

    /// The `i`-th basis polynomial at `x`, in barycentric form: 1 within
    /// EPSILON of point `i`, 0 within EPSILON of another point.
    pub open spec fn basis_at(&self, i: int, x: T) -> T {
        let p = self.pts();
        let w = self.wts();
        if x.sub_spec(p[i]).abs_spec().lt_spec(T::epsilon_spec()) {
            T::one_spec()
        } else {
            match bary_sum(p, w, x, N as nat) {
                None => T::zero_spec(),
                Some(s) => w[i].div_spec(x.sub_spec(p[i])).div_spec(s),
            }
        }
    }

    /// The derivative of the `i`-th basis polynomial at `x`: by the product rule,
    /// the sum over `j != i` of the polynomial without its factor for point `j`,
    /// divided by `p[i] - p[j]`.
    pub open spec fn basis_derivative_at(&self, i: int, x: T) -> T {
        deriv_sum(self.pts(), i, x, N as nat, N as nat)
    }

    /// The values `yp` suffice to interpolate at `x`: there is one per point, or
    /// `x` is within EPSILON of a point whose value is given before the values run out.
    pub open spec fn interpolant_defined(&self, yp: Seq<T>, x: T) -> bool {
        yp.len() >= N || interp_scan(self.pts(), self.wts(), yp, x, yp.len()) is Err
    }

    /// The interpolant of the values `yp` at `x`.
    pub open spec fn interpolant_at(&self, yp: Seq<T>, x: T) -> T {
        match interp_scan(self.pts(), self.wts(), yp, x, N as nat) {
            Err(y) => y,
            Ok(nd) => nd.0.div_spec(nd.1),
        }
    }

    /// The interpolant reproduces the data at the nodes: at `x` within EPSILON of
    /// node `j` and of no earlier node (for distinct nodes, at `p[j]` itself), the
    /// interpolant of `yp` is `yp[j]`.
    pub proof fn lemma_interpolant_at_node(&self, yp: Seq<T>, x: T, j: int)
        requires
            0 <= j < N,
            j < yp.len(),
            x.sub_spec(self.pts()[j]).abs_spec().lt_spec(T::epsilon_spec()),
            forall|i: int| 0 <= i < j ==> !(#[trigger] x.sub_spec(self.pts()[i])).abs_spec().lt_spec(T::epsilon_spec()),
        ensures
            self.interpolant_defined(yp, x),
            self.interpolant_at(yp, x) == yp[j],
    {
        lemma_interp_scan_at_node(self.pts(), self.wts(), yp, x, j, N as nat);
        if yp.len() < N {
            lemma_interp_scan_at_node(self.pts(), self.wts(), yp, x, j, yp.len());
        }
    }

    pub fn new(points: [T; N]) -> (b: Self)
        ensures
            b.pts() == points@,
            b.wts() == Seq::new(N as nat, |i: int| weight_spec(points@, i, N as nat)),
    {
        let mut weights = [T::one(); N];
        let mut i: usize = 0;
        while i < N
            invariant
                i <= N,
                weights@.len() == N,
                forall|k: int| 0 <= k < i ==> #[trigger] weights@[k] == weight_spec(points@, k, N as nat),
                forall|k: int| i <= k < N ==> #[trigger] weights@[k] == T::one_spec(),
            decreases N - i,
        {
            let mut j: usize = 0;
            while j < N
                invariant
                    i < N,
                    j <= N,
                    weights@.len() == N,
                    forall|k: int| 0 <= k < i ==> #[trigger] weights@[k] == weight_spec(points@, k, N as nat),
                    forall|k: int| i < k < N ==> #[trigger] weights@[k] == T::one_spec(),
                    weights@[i as int] == weight_spec(points@, i as int, j as nat),
                decreases N - j,
            {
                if i != j {
                    weights[i] = weights[i].float_mul(T::one().float_div(points[i].float_sub(points[j])));
                }
                j = j + 1;
            }
            i = i + 1;
        }
        proof {
            assert(weights@ =~= Seq::new(N as nat, |i: int| weight_spec(points@, i, N as nat)));
        }
        Self { points, weights }
    }

    /// Evaluates the `i`-th basis polynomial at `x`.
    fn eval_basis(&self, i: usize, x: T) -> (y: T)
        requires
            i < N,
        ensures
            y == self.basis_at(i as int, x),
    {
        if x.float_sub(self.points[i]).float_abs().float_lt(T::epsilon()) {
            return T::one();
        }
        let mut sum = T::zero();
        let mut j: usize = 0;
        while j < N
            invariant
                i < N,
                j <= N,
                self.pts().len() == N,
                self.wts().len() == N,
                bary_sum(self.pts(), self.wts(), x, j as nat) == Some(sum),
                !x.sub_spec(self.pts()[i as int]).abs_spec().lt_spec(T::epsilon_spec()),
            decreases N - j,
        {
            let dx = x.float_sub(self.points[j]);
            if dx.float_abs().float_lt(T::epsilon()) {
                proof {
                    self.lemma_bary_none(x, (j + 1) as nat);
                }
                return T::zero();
            }
            sum = sum.float_add(self.weights[j].float_div(dx));
            j = j + 1;
        }
        self.weights[i].float_div(x.float_sub(self.points[i])).float_div(sum)
    }

    proof fn lemma_bary_none(&self, x: T, m: nat)
        requires
            m <= N,
            bary_sum(self.pts(), self.wts(), x, m) is None,
        ensures
            bary_sum(self.pts(), self.wts(), x, N as nat) is None,
        decreases N - m,
    {
        if m < N {
            self.lemma_bary_none(x, m + 1);
        }
    }

    /// The `i`-th basis polynomial, as a function.
    pub fn basis(&self, i: usize) -> (f: impl Fn(T) -> T + '_)
        requires
            i < N,
        ensures
            forall|x: T| f.requires((x,)),
            forall|x: T, y: T| f.ensures((x,), y) ==> y == self.basis_at(i as int, x),
    {
        move |x: T| -> (y: T)
            ensures
                y == self.basis_at(i as int, x),
            { self.eval_basis(i, x) }
    }

    /// Evaluates the derivative of the `i`-th basis polynomial at `x`.
    fn eval_basis_derivative(&self, i: usize, x: T) -> (y: T)
        requires
            i < N,
        ensures
            y == self.basis_derivative_at(i as int, x),
    {
        let mut sum = T::zero();
        let mut j: usize = 0;
        while j < N
            invariant
                i < N,
                j <= N,
                self.pts().len() == N,
                sum == deriv_sum(self.pts(), i as int, x, N as nat, j as nat),
            decreases N - j,
        {
            if i != j {
                let mut prod = T::one();
                let mut k: usize = 0;
                while k < N
                    invariant
                        i < N,
                        j < N,
                        k <= N,
                        self.pts().len() == N,
                        prod == lagrange_prod_without(x, i as int, j as int, self.pts(), k as nat),
                    decreases N - k,
                {
                    if k != i && k != j {
                        prod = prod.float_mul(x.float_sub(self.points[k]).float_div(self.points[i].float_sub(self.points[k])));
                    }
                    k = k + 1;
                }
                sum = sum.float_add(prod.float_div(self.points[i].float_sub(self.points[j])));
            }
            j = j + 1;
        }
        sum
    }

    /// The derivative of the `i`-th basis polynomial, as a function.
    pub fn basis_derivative(&self, i: usize) -> (f: impl Fn(T) -> T + '_)
        requires
            i < N,
        ensures
            forall|x: T| f.requires((x,)),
            forall|x: T, y: T| f.ensures((x,), y) ==> y == self.basis_derivative_at(i as int, x),
    {
        move |x: T| -> (y: T)
            ensures
                y == self.basis_derivative_at(i as int, x),
            { self.eval_basis_derivative(i, x) }
    }

    /// Evaluates at `x` the interpolant of the values `yp` at the points.
    fn eval_interpolant(&self, yp: &[T], x: T) -> (y: T)
        requires
            self.interpolant_defined(yp@, x),
        ensures
            y == self.interpolant_at(yp@, x),
    {
        let mut num = T::zero();
        let mut denom = T::zero();
        let mut i: usize = 0;
        while i < N
            invariant
                i <= N,
                self.interpolant_defined(yp@, x),
                self.pts().len() == N,
                self.wts().len() == N,
                interp_scan(self.pts(), self.wts(), yp@, x, i as nat) == Ok::<(T, T), T>((num, denom)),
            decreases N - i,
        {
            proof {
                if i >= yp@.len() && yp@.len() < N {
                    if interp_scan(self.pts(), self.wts(), yp@, x, yp@.len()) is Err {
                        lemma_interp_err_persists(self.pts(), self.wts(), yp@, x, yp@.len(), i as nat);
                    }
                }
            }
            let xi = self.points[i];
            if x.float_sub(xi).float_abs().float_lt(T::epsilon()) {
                proof {
                    lemma_interp_err_persists(self.pts(), self.wts(), yp@, x, (i + 1) as nat, N as nat);
                }
                return yp[i];
            }
            let t = self.weights[i].float_div(x.float_sub(xi));
            num = num.float_add(t.float_mul(yp[i]));
            denom = denom.float_add(t);
            i = i + 1;
        }
        num.float_div(denom)
    }

    /// The interpolant of the values `yp` at the points, as a function.
    pub fn interpolant<'a>(&'a self, yp: &'a [T]) -> (f: impl Fn(T) -> T + 'a)
        ensures
            forall|x: T| self.interpolant_defined(yp@, x) ==> f.requires((x,)),
            forall|x: T, y: T| f.ensures((x,), y) ==> y == self.interpolant_at(yp@, x),
    {
        move |x: T| -> (y: T)
            requires
                self.interpolant_defined(yp@, x),
            ensures
                y == self.interpolant_at(yp@, x),
            { self.eval_interpolant(yp, x) }
    }
}

} // verus!
