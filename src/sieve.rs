use vstd::arithmetic::div_mod::{lemma_fundamental_div_mod, lemma_mod_multiples_basic};
use vstd::prelude::*;

verus! {

/// `p` is a prime: at least 2, and no integer in `[2, p)` divides it.
pub open spec fn is_prime(p: int) -> bool {
    p >= 2 && forall|d: int| 2 <= d < p ==> #[trigger] (p % d) != 0
}

/// The number of primes in `[2, n]`.
pub open spec fn prime_count(n: int) -> nat
    decreases n,
{
    if n < 2 {
        0
    } else {
        prime_count(n - 1) + if is_prime(n) {
            1nat
        } else {
            0nat
        }
    }
}

/// No integer in `[2, i)` below `k` divides `k`: what the sieve keeps for `k` once every
/// candidate factor below `i` has been processed.
spec fn no_factor_below(k: int, i: int) -> bool {
    forall|d: int| 2 <= d < i && d < k ==> #[trigger] (k % d) != 0
}

proof fn lemma_divides_transitive(d: int, m: int, k: int)
    requires
        d > 0,
        m > 0,
        m % d == 0,
        k % m == 0,
    ensures
        k % d == 0,
{
    lemma_fundamental_div_mod(m, d);
    lemma_fundamental_div_mod(k, m);
    let a = m / d;
    let b = k / m;
    assert(k == (a * b) * d) by (nonlinear_arith)
        requires
            m == d * a,
            k == m * b,
    ;
    lemma_mod_multiples_basic(a * b, d);
}

/// A multiple `k` of `i` strictly between `i` and `i * i` has the divisor `k / i`, which lies
/// in `[2, i)`.
proof fn lemma_small_multiple(i: int, k: int)
    requires
        i >= 2,
        i < k < i * i,
        k % i == 0,
    ensures
        2 <= k / i < i,
        k % (k / i) == 0,
{
    lemma_fundamental_div_mod(k, i);
    let q = k / i;
    assert(2 <= q < i) by (nonlinear_arith)
        requires
            i >= 2,
            i < k < i * i,
            k == i * q,
    ;
    lemma_mod_multiples_basic(i, q);
    assert(k == i * q);
}

/// A number `k < i * i` with a divisor `d >= i` below it also has a divisor in `[2, i)`.
proof fn lemma_cofactor_below(i: int, k: int, d: int)
    requires
        i >= 2,
        k < i * i,
        i <= d < k,
        k % d == 0,
    ensures
        2 <= k / d < i,
        k / d < k,
        k % (k / d) == 0,
{
    lemma_fundamental_div_mod(k, d);
    let q = k / d;
    assert(2 <= q < i && q < k) by (nonlinear_arith)
        requires
            i >= 2,
            k < i * i,
            i <= d < k,
            k == d * q,
    ;
    lemma_mod_multiples_basic(d, q);
    assert(k == d * q);
}

/// A number strictly between two consecutive multiples of `i` is no multiple of `i`.
proof fn lemma_between_multiples(i: int, m: int, k: int)
    requires
        i > 0,
        i * m < k < i * m + i,
    ensures
        k % i != 0,
{
    lemma_fundamental_div_mod(k, i);
    let q = k / i;
    if k % i == 0 {
        assert(false) by (nonlinear_arith)
            requires
                i > 0,
                i * m < k < i * m + i,
                k == i * q,
        ;
    }
}

/// Crosses off the multiples `i * i, i * i + i, ...` up to `n`; every other entry stays.
fn cross_off_multiples(sieve: &mut Vec<bool>, i: usize, n: usize)
    requires
        2 <= i,
        i * i <= n,
        n < isize::MAX,
        old(sieve).len() == n + 1,
    ensures
        final(sieve).len() == n + 1,
        forall|k: int|
            0 <= k <= n ==> #[trigger] final(sieve)@[k] == (old(sieve)@[k] && !(i * i <= k
                && k % (i as int) == 0)),
{
    assert(i <= n) by (nonlinear_arith)
        requires
            2 <= i,
            i * i <= n,
    ;
    let mut j: usize = i * i;
    let ghost mut m: int = i as int;
    while j <= n
        invariant
            2 <= i,
            i <= n,
            i * i <= j,
            j == i * m,
            j <= n + i,
            n < isize::MAX,
            sieve.len() == n + 1,
            forall|k: int|
                0 <= k <= n ==> #[trigger] sieve@[k] == (old(sieve)@[k] && !(i * i <= k < j
                    && k % (i as int) == 0)),
        decreases n + i - j,
    {
        proof {
            lemma_mod_multiples_basic(m, i as int);
            assert((j as int) % (i as int) == 0) by {
                assert(m * i == i * m) by (nonlinear_arith);
            }
        }
        sieve.set(j, false);
        proof {
            assert forall|k: int| j < k < j + i implies #[trigger] (k % (i as int)) != 0 by {
                lemma_between_multiples(i as int, m, k);
            }
            assert(j + i == i * (m + 1)) by (nonlinear_arith)
                requires
                    j == i * m,
            ;
            m = m + 1;
        }
        j = j + i;
    }
}

/// Counts the primes in `[2, n]` with the sieve of Eratosthenes: for each `i` with
/// `i * i <= n` that is still marked, the multiples from `i * i` on are crossed off, and the
/// entries of `[2, n]` still marked at the end are counted. The `n + 1` flags must fit in one
/// allocation, which bounds `n` below `isize::MAX`.
pub fn prime_sieve(n: usize) -> (r: usize)
    requires
        n < isize::MAX,
    ensures
        r == prime_count(n as int),
{
    let mut marked: Vec<bool> = vec![true; n + 1];
    let mut i: usize = 2;
    proof {
        assert forall|k: int| 2 <= k <= n implies #[trigger] marked@[k] == no_factor_below(k, 2)
            by {
            assert(cloned(true, marked@[k]));
        }
    }
    while i <= n / i
        invariant
            2 <= i,
            n < isize::MAX,
            marked.len() == n + 1,
            forall|k: int| 2 <= k <= n ==> #[trigger] marked@[k] == no_factor_below(k, i as int),
        decreases n + 1 - i,
    {
        assert(i * i <= n && i <= n) by (nonlinear_arith)
            requires
                2 <= i,
                i <= n / i,
        ;
        if marked[i] {
            let ghost before = marked@;
            cross_off_multiples(&mut marked, i, n);
            proof {
                assert forall|k: int| 2 <= k <= n implies #[trigger] marked@[k]
                    == no_factor_below(k, i + 1) by {
                    assert(before[k] == no_factor_below(k, i as int));
                    if i < k && k % (i as int) == 0 {
                        assert(!no_factor_below(k, i + 1));
                        if k < i * i {
                            lemma_small_multiple(i as int, k);
                            let q = k / (i as int);
                            assert(k % q == 0);
                            assert(!no_factor_below(k, i as int));
                        }
                        assert(!marked@[k]);
                    } else {
                        assert(no_factor_below(k, i + 1) == no_factor_below(k, i as int));
                        if k % (i as int) == 0 {
                            assert(k < i * i) by (nonlinear_arith)
                                requires
                                    2 <= i,
                                    k <= i,
                            ;
                        }
                        assert(marked@[k] == before[k]);
                    }
                }
            }
        } else {
            proof {
                assert(!no_factor_below(i as int, i as int));
                let d = choose|d: int| 2 <= d < i && #[trigger] ((i as int) % d) == 0;
                assert forall|k: int| 2 <= k <= n implies #[trigger] marked@[k]
                    == no_factor_below(k, i + 1) by {
                    if i < k && k % (i as int) == 0 {
                        lemma_divides_transitive(d, i as int, k);
                        assert(k % d == 0);
                        assert(!no_factor_below(k, i as int));
                        assert(!no_factor_below(k, i + 1));
                    } else {
                        assert(no_factor_below(k, i + 1) == no_factor_below(k, i as int));
                    }
                }
            }
        }
        i = i + 1;
    }
    assert(i * i > n) by (nonlinear_arith)
        requires
            2 <= i,
            i > n / i,
    ;
    proof {
        assert forall|k: int| 2 <= k <= n implies #[trigger] marked@[k] == is_prime(k) by {
            if no_factor_below(k, i as int) && !is_prime(k) {
                let d = choose|d: int| 2 <= d < k && #[trigger] (k % d) == 0;
                lemma_cofactor_below(i as int, k, d);
                let q = k / d;
                assert(k % q == 0);
            }
        }
    }
    let mut count: usize = 0;
    let mut k: usize = 2;
    while k <= n
        invariant
            2 <= k,
            k <= n + 1 || k == 2,
            count < k,
            count == prime_count(k - 1),
            n < isize::MAX,
            marked.len() == n + 1,
            forall|j: int| 2 <= j <= n ==> #[trigger] marked@[j] == is_prime(j),
        decreases n + 1 - k,
    {
        if marked[k] {
            count = count + 1;
        }
        k = k + 1;
    }
    count
}

/// `prime_sieve` is idempotent: two calls with the same argument return the same value.
pub proof fn lemma_prime_sieve_idempotent(n: usize, r1: usize, r2: usize)
    requires
        call_ensures(prime_sieve, (n,), r1),
        call_ensures(prime_sieve, (n,), r2),
    ensures
        r1 == r2,
{
}

}
