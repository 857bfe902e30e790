use vstd::prelude::*;

verus! {

/// The Fibonacci sequence, extended to `n <= 1` by `fib(n) == n`.
pub open spec fn fib(n: int) -> int
    decreases n,
{
    if n <= 1 {
        n
    } else {
        fib(n - 1) + fib(n - 2)
    }
}

/// The largest index whose Fibonacci number fits in an `i64`.
pub const FIB_MAX_INDEX: i64 = 92;

/// `k` further steps of the Fibonacci recurrence from the pair `(a, b)`.
spec fn fib_steps(k: nat, a: int, b: int) -> int
    decreases k,
{
    if k == 0 {
        a
    } else {
        fib_steps((k - 1) as nat, b, a + b)
    }
}

proof fn lemma_fib_steps(k: nat, m: int)
    requires
        m >= 0,
    ensures
        fib_steps(k, fib(m), fib(m + 1)) == fib(m + k),
    decreases k,
{
    if k > 0 {
        assert(fib(m + 2) == fib(m + 1) + fib(m));
        lemma_fib_steps((k - 1) as nat, m + 1);
    }
}

proof fn lemma_fib_92()
    ensures
        fib(92) == 7540113804746346429,
{
    lemma_fib_steps(92, 0);
    reveal_with_fuel(fib_steps, 93);
}

proof fn lemma_fib_nonnegative(n: int)
    requires
        n >= 0,
    ensures
        fib(n) >= 0,
    decreases n,
{
    if n >= 2 {
        lemma_fib_nonnegative(n - 1);
        lemma_fib_nonnegative(n - 2);
    }
}

/// Fibonacci numbers of non-negative indices are non-negative and do not decrease.
pub proof fn lemma_fib_monotonic(i: int, j: int)
    requires
        0 <= i <= j,
    ensures
        0 <= fib(i) <= fib(j),
    decreases j,
{
    lemma_fib_nonnegative(i);
    if j > i {
        lemma_fib_monotonic(i, j - 1);
        if j >= 2 {
            lemma_fib_nonnegative(j - 2);
        }
    }
}

/// Naive doubly recursive Fibonacci: `fib(n) = fib(n - 1) + fib(n - 2)` with `fib(0) = 0` and
/// `fib(1) = 1`; an argument below zero is returned as it is.
pub fn fibonacci(n: i64) -> (r: i64)
    requires
        n <= FIB_MAX_INDEX,
    ensures
        r == fib(n as int),
    decreases n,
{
    if n <= 1 {
        return n;
    }
    proof {
        lemma_fib_92();
        lemma_fib_monotonic(n as int, 92);
        lemma_fib_nonnegative(n - 1);
        lemma_fib_nonnegative(n - 2);
    }
    fibonacci(n - 1) + fibonacci(n - 2)
}

/// `fibonacci` is idempotent: two calls with the same argument return the same value.
pub proof fn lemma_fibonacci_idempotent(n: i64, r1: i64, r2: i64)
    requires
        call_ensures(fibonacci, (n,), r1),
        call_ensures(fibonacci, (n,), r2),
    ensures
        r1 == r2,
{
}

}
