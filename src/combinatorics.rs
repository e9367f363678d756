use vstd::prelude::*;

verus! {

/// The falling factorial `n * (n - 1) * ... * (n - k + 1)`: the number of ordered ways
/// to pick `k` of `n` copies without replacement. It is `1` for `k == 0 <= n` and
/// `0` whenever `k > n`, `n < 0` or `k < 0`.
pub open spec fn falling(n: int, k: int) -> int
    decreases k,
{
    if k < 0 || n < 0 || k > n {
        0
    } else if k == 0 {
        1
    } else {
        n * falling(n - 1, k - 1)
    }
}

/// Taking one more factor multiplies by the next smaller number.
pub proof fn lemma_falling_step(n: int, i: int)
    requires
        0 <= i < n,
    ensures
        falling(n, i + 1) == falling(n, i) * (n - i),
    decreases i,
{
    if i > 0 {
        lemma_falling_step(n - 1, i - 1);
        assert(falling(n, i + 1) == n * falling(n - 1, i));
        assert(falling(n, i) == n * falling(n - 1, i - 1));
        assert(n * (falling(n - 1, i - 1) * (n - i)) == (n * falling(n - 1, i - 1)) * (n - i))
            by (nonlinear_arith);
    } else {
        assert(falling(n - 1, 0) == 1);
    }
}

/// Within range the falling factorial is a positive count.
pub proof fn lemma_falling_positive(n: int, k: int)
    requires
        0 <= k <= n,
    ensures
        falling(n, k) >= 1,
    decreases k,
{
    if k > 0 {
        lemma_falling_positive(n - 1, k - 1);
        assert(n * falling(n - 1, k - 1) >= 1) by (nonlinear_arith)
            requires
                n >= 1,
                falling(n - 1, k - 1) >= 1,
        ;
    }
}

/// Within range the falling factorial grows with the number of factors.
pub proof fn lemma_falling_monotone(n: int, i: int, j: int)
    requires
        0 <= i <= j <= n,
    ensures
        falling(n, i) <= falling(n, j),
    decreases j - i,
{
    if i < j {
        lemma_falling_monotone(n, i, j - 1);
        lemma_falling_step(n, j - 1);
        lemma_falling_positive(n, j - 1);
        let f = falling(n, j - 1);
        assert(f <= f * (n - (j - 1))) by (nonlinear_arith)
            requires
                f >= 1,
                n - (j - 1) >= 1,
        ;
    }
}

/// `falling(n, 0) == 1` for every `n >= 0`, and `falling(n, k) == 0` whenever `k > n`.
pub proof fn lemma_falling_factorial_edges(n: int, k: int)
    requires
        n >= 0,
    ensures
        falling(n, 0) == 1,
        k > n ==> falling(n, k) == 0,
{
}

/// The falling factorial of `n` and `k`, or `None` where it exceeds `u64::MAX`.
pub fn falling_factorial(n: i32, k: i32) -> (r: Option<u64>)
    ensures
        r == (if falling(n as int, k as int) <= u64::MAX {
            Some(falling(n as int, k as int) as u64)
        } else {
            None
        }),
{
    if k < 0 || n < 0 || k > n {
        return Some(0);
    }
    let mut acc: u64 = 1;
    let mut i: i32 = 0;
    while i < k
        invariant
            0 <= i <= k <= n,
            acc as int == falling(n as int, i as int),
        decreases k - i,
    {
        proof {
            lemma_falling_step(n as int, i as int);
        }
        let factor: u64 = (n - i) as u64;
        match acc.checked_mul(factor) {
            Some(next) => {
                acc = next;
            },
            None => {
                proof {
                    lemma_falling_monotone(n as int, i + 1, k as int);
                }
                return None;
            },
        }
        i = i + 1;
    }
    Some(acc)
}

} // verus!
