use vstd::prelude::*;

use crate::Enter;

verus! {

/// `n!`
pub open spec fn fact(n: nat) -> nat
    decreases n,
{
    if n == 0 {
        1
    } else {
        n * fact((n - 1) as nat)
    }
}

/// The binomial coefficient "`n` choose `k`", by Pascal's rule; it is zero
/// when `k > n`.
pub open spec fn binomial(n: nat, k: nat) -> nat
    decreases n,
{
    if k == 0 {
        1
    } else if n == 0 {
        0
    } else {
        binomial((n - 1) as nat, (k - 1) as nat) + binomial((n - 1) as nat, k)
    }
}

proof fn lemma_fact_monotone(i: nat, j: nat)
    requires
        i <= j,
    ensures
        1 <= fact(i) <= fact(j),
    decreases j,
{
    if j > 0 {
        if i == j {
            lemma_fact_monotone((j - 1) as nat, (j - 1) as nat);
        } else {
            lemma_fact_monotone(i, (j - 1) as nat);
        }
        let f = fact((j - 1) as nat);
        assert(f <= j * f) by (nonlinear_arith)
            requires
                j >= 1,
                f >= 1,
        ;
    }
}

/// `x!`, for every `x` whose factorial fits in an `Enter`.
pub fn factorial(x: Enter) -> (r: Enter)
    requires
        fact(x as nat) <= Enter::MAX,
    ensures
        r == fact(x as nat),
{
    let mut r: Enter = 1;
    let mut i: Enter = 0;
    while i < x
        invariant
            i <= x,
            r == fact(i as nat),
            fact(x as nat) <= Enter::MAX,
        decreases x - i,
    {
        i += 1;
        proof {
            lemma_fact_monotone(i as nat, x as nat);
            let f = fact((i - 1) as nat);
            assert(fact(i as nat) == i * f);
            assert(r * i == i * f) by (nonlinear_arith)
                requires
                    r == f,
            ;
        }
        r = r * i;
    }
    r
}

proof fn lemma_binomial_zero(n: nat, k: nat)
    requires
        k > n,
    ensures
        binomial(n, k) == 0,
    decreases n,
{
    if n > 0 {
        lemma_binomial_zero((n - 1) as nat, (k - 1) as nat);
        lemma_binomial_zero((n - 1) as nat, k);
    }
}

/// The step of the multiplicative formula: `k * C(n, k) == (n - k + 1) * C(n, k - 1)`.
pub proof fn lemma_binomial_step(n: nat, k: nat)
    requires
        1 <= k <= n,
    ensures
        k * binomial(n, k) == (n - k + 1) * binomial(n, (k - 1) as nat),
    decreases n,
{
    let m = (n - 1) as nat;
    assert(binomial(n, 0) == 1);
    assert(binomial(m, 0) == 1);
    if k == 1 {
        if m >= 1 {
            lemma_binomial_step(m, 1);
        } else {
            lemma_binomial_zero(m, 1);
        }
        assert(binomial(n, 1) == binomial(m, 0) + binomial(m, 1));
    } else if k <= m {
        lemma_binomial_step(m, k);
        lemma_binomial_step(m, (k - 1) as nat);
        let a = binomial(m, (k - 2) as nat);
        let b = binomial(m, (k - 1) as nat);
        let c = binomial(m, k);
        assert(binomial(n, k) == b + c);
        assert(binomial(n, (k - 1) as nat) == a + b);
        assert(k * (b + c) == (n - k + 1) * (a + b)) by (nonlinear_arith)
            requires
                n == m + 1,
                k * c == (m - k + 1) * b,
                (k - 1) * b == (m - k + 2) * a,
        ;
    } else {
        // k == n == m + 1, with m >= 1
        lemma_binomial_zero(m, k);
        lemma_binomial_step(m, m);
        let a = binomial(m, (m - 1) as nat);
        let b = binomial(m, m);
        assert(binomial(n, k) == b);
        assert(binomial(n, (k - 1) as nat) == a + b);
        assert(k * b == (n - k + 1) * (a + b)) by (nonlinear_arith)
            requires
                k == n,
                n == m + 1,
                m * b == (m - m + 1) * a,
        ;
    }
}

/// The products that the multiplicative formula for "`n` choose `r`" forms
/// on its way all fit in an `Enter`.
pub open spec fn choose_fits(n: Enter, r: Enter) -> bool {
    r <= n ==> forall|j: nat| j < r ==> #[trigger] binomial(n as nat, j) * (n - j) <= Enter::MAX
}

/// "`n` choose `r`": the number of ways to choose `r` items out of `n`.
pub fn n_choose_r(n: Enter, r: Enter) -> (res: Enter)
    requires
        choose_fits(n, r),
    ensures
        res == binomial(n as nat, r as nat),
{
    if r > n {
        proof {
            lemma_binomial_zero(n as nat, r as nat);
        }
        0
    } else {
        proof {
            if r == Enter::MAX {
                // a choice of at least two items out of `Enter::MAX` overflows
                lemma_binomial_step(n as nat, 1);
                assert(binomial(n as nat, 1) * (n - 1) <= Enter::MAX);
                assert(false) by (nonlinear_arith)
                    requires
                        n == Enter::MAX,
                        binomial(n as nat, 1) == n,
                        binomial(n as nat, 1) * (n - 1) <= Enter::MAX,
                ;
            }
        }
        let mut acc: Enter = 1;
        let mut val: Enter = 1;
        while val <= r
            invariant
                1 <= val <= r + 1,
                r <= n,
                r < Enter::MAX,
                choose_fits(n, r),
                acc == binomial(n as nat, (val - 1) as nat),
            decreases r + 1 - val,
        {
            proof {
                lemma_binomial_step(n as nat, val as nat);
                assert(binomial(n as nat, (val - 1) as nat) * (n - (val - 1)) <= Enter::MAX);
            }
            let p = acc * (n - val + 1);
            let ghost b = binomial(n as nat, val as nat);
            assert(p / val == b) by (nonlinear_arith)
                requires
                    p == acc * (n - val + 1),
                    val * b == (n - val + 1) * acc,
                    val >= 1,
            ;
            acc = p / val;
            val += 1;
        }
        acc
    }
}

/// "`n` choose `r`", or `None` when a product that `n_choose_r` forms on
/// its way would not fit in an `Enter`: the test to make before calling
/// `n_choose_r`.
pub fn checked_n_choose_r(n: Enter, r: Enter) -> (res: Option<Enter>)
    ensures
        choose_fits(n, r) ==> res == Some(binomial(n as nat, r as nat) as Enter),
        !choose_fits(n, r) ==> res is None,
{
    if r > n {
        proof {
            lemma_binomial_zero(n as nat, r as nat);
        }
        return Some(0);
    }
    let mut acc: Enter = 1;
    let mut val: Enter = 1;
    while val <= r
        invariant
            1 <= val,
            val <= r + 1,
            r <= n,
            acc == binomial(n as nat, (val - 1) as nat),
            forall|j: nat| j < val - 1 ==> #[trigger] binomial(n as nat, j) * (n - j) <= Enter::MAX,
        decreases r + 1 - val,
    {
        proof {
            lemma_binomial_step(n as nat, val as nat);
        }
        let p = match acc.checked_mul(n - val + 1) {
            Some(p) => p,
            None => {
                assert(binomial(n as nat, (val - 1) as nat) * (n - (val - 1)) > Enter::MAX);
                return None;
            },
        };
        let ghost b = binomial(n as nat, val as nat);
        assert(p / val == b) by (nonlinear_arith)
            requires
                p == acc * (n - val + 1),
                val * b == (n - val + 1) * acc,
                val >= 1,
        ;
        acc = p / val;
        if val == r {
            return Some(acc);
        }
        val += 1;
    }
    Some(acc)
}

} // verus!
