//! Special functions.
pub mod beta;
pub mod lagrange;

use vstd::prelude::*;

verus! {

/// `n!`
pub open spec fn factorial_spec(n: nat) -> nat
    decreases n,
{
    if n == 0 {
        1
    } else {
        n * factorial_spec((n - 1) as nat)
    }
}

/// `x!`, read from a table; the table covers `x <= 10`.
pub fn factorial(x: u64) -> (r: u64)
    requires
        x <= 10,
    ensures
        r == factorial_spec(x as nat),
{
    let sols: [u64; 11] = [1, 1, 2, 6, 24, 120, 720, 5040, 40320, 362880, 3628800];
    proof {
        assert(sols@ =~= seq![1u64, 1, 2, 6, 24, 120, 720, 5040, 40320, 362880, 3628800]);
        assert(factorial_spec(0) == 1);
        assert(factorial_spec(1) == 1);
        assert(factorial_spec(2) == 2);
        assert(factorial_spec(3) == 6);
        assert(factorial_spec(4) == 24);
        assert(factorial_spec(5) == 120);
        assert(factorial_spec(6) == 720);
        assert(factorial_spec(7) == 5040);
        assert(factorial_spec(8) == 40320);
        assert(factorial_spec(9) == 362880);
        assert(factorial_spec(10) == 3628800);
        assert forall|k: int| 0 <= k <= 10 implies #[trigger] sols@[k] == factorial_spec(k as nat) by {}
    }

    if x < 10 {
        return sols[x as usize];
    }

    let mut r = sols[x as usize];
    let mut i: u64 = 10;
    while i < x
        invariant
            i == 10,
            x <= 10,
            r == factorial_spec(x as nat),
        decreases x - i,
    {
        r = r * i;
        i = i + 1;
    }
    r
}

} // verus!
