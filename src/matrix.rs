use vstd::prelude::*;

verus! {

/// Entry `(i, j)` of the left factor.
pub open spec fn left_entry(i: int, j: int) -> int {
    i + j
}

/// Entry `(i, j)` of the right factor.
pub open spec fn right_entry(i: int, j: int) -> int {
    i - j
}

/// The sum over `t < k` of `left_entry(i, t) * right_entry(t, j)`.
pub open spec fn dot_prefix(i: int, j: int, k: int) -> int
    decreases k,
{
    if k <= 0 {
        0
    } else {
        dot_prefix(i, j, k - 1) + left_entry(i, k - 1) * right_entry(k - 1, j)
    }
}

/// Entry `(i, j)` of the product of the two `n` by `n` factors.
pub open spec fn product_entry(n: int, i: int, j: int) -> int {
    dot_prefix(i, j, n)
}

/// The largest dimension accepted: every partial sum of a product entry then fits in an `i64`.
pub const MATRIX_MAX_DIM: usize = 1_000_000;

/// `rows` rows of length `n`, each entry given by `entry`.
pub open spec fn holds_grid(m: Seq<Vec<i64>>, rows: int, n: int, entry: spec_fn(int, int) -> int) -> bool {
    &&& m.len() == rows
    &&& forall|r: int| 0 <= r < rows ==> (#[trigger] m[r])@.len() == n
    &&& forall|r: int, c: int| 0 <= r < rows && 0 <= c < n ==> #[trigger] m[r]@[c] == entry(r, c)
}

proof fn lemma_dot_prefix_bound(n: int, i: int, j: int, k: int)
    requires
        0 <= i < n,
        0 <= j < n,
        0 <= k <= n,
    ensures
        -(k * (2 * n * n)) <= dot_prefix(i, j, k) <= k * (2 * n * n),
    decreases k,
{
    if k > 0 {
        lemma_dot_prefix_bound(n, i, j, k - 1);
        let m = 2 * n * n;
        assert(-m <= left_entry(i, k - 1) * right_entry(k - 1, j) <= m) by (nonlinear_arith)
            requires
                0 <= i < n,
                0 <= j < n,
                0 <= k - 1 < n,
                m == 2 * n * n,
        ;
        assert(k * m == (k - 1) * m + m) by (nonlinear_arith);
    }
}

proof fn lemma_dim_bound(n: int, k: int)
    requires
        0 <= k <= n <= MATRIX_MAX_DIM,
    ensures
        k * (2 * n * n) <= 2_000_000_000_000_000_000,
        2 * n * n <= 2_000_000_000_000,
{
    assert(k * (2 * n * n) <= n * (2 * n * n)) by (nonlinear_arith)
        requires
            0 <= k <= n,
    ;
    assert(n * (2 * n * n) <= 2_000_000_000_000_000_000 && 2 * n * n <= 2_000_000_000_000)
        by (nonlinear_arith)
        requires
            0 <= n <= 1_000_000,
    ;
}

/// Entry `(i, j)` of the product of `a` and `b`, summed over `k` from the left.
fn dot_row_col(a: &Vec<Vec<i64>>, b: &Vec<Vec<i64>>, i: usize, j: usize, n: usize) -> (s: i64)
    requires
        1 <= n <= MATRIX_MAX_DIM,
        i < n,
        j < n,
        holds_grid(a@, n as int, n as int, |r: int, c: int| left_entry(r, c)),
        holds_grid(b@, n as int, n as int, |r: int, c: int| right_entry(r, c)),
    ensures
        s == product_entry(n as int, i as int, j as int),
{
    let mut sum: i64 = 0;
    let mut k: usize = 0;
    while k < n
        invariant
            1 <= n <= MATRIX_MAX_DIM,
            i < n,
            j < n,
            k <= n,
            holds_grid(a@, n as int, n as int, |r: int, c: int| left_entry(r, c)),
            holds_grid(b@, n as int, n as int, |r: int, c: int| right_entry(r, c)),
            sum == dot_prefix(i as int, j as int, k as int),
        decreases n - k,
    {
        proof {
            lemma_dot_prefix_bound(n as int, i as int, j as int, k as int + 1);
            lemma_dim_bound(n as int, k as int + 1);
            assert(a@[i as int]@[k as int] == left_entry(i as int, k as int));
            assert(b@[k as int]@[j as int] == right_entry(k as int, j as int));
            let term = left_entry(i as int, k as int) * right_entry(k as int, j as int);
            assert(-2_000_000_000_000 <= term <= 2_000_000_000_000) by (nonlinear_arith)
                requires
                    i < n <= 1_000_000,
                    j < n,
                    k < n,
                    term == left_entry(i as int, k as int) * right_entry(k as int, j as int),
            ;
        }
        sum = sum + a[i][k] * b[k][j];
        k = k + 1;
    }
    sum
}

/// Builds the `n` by `n` factors `A[i][j] = i + j` and `B[i][j] = i - j`, multiplies them
/// with the triple loop `C[i][j] = sum over k of A[i][k] * B[k][j]`, and returns the centre
/// entry `C[n / 2][n / 2]`.
pub fn matrix_multiply(n: usize) -> (r: i64)
    requires
        1 <= n <= MATRIX_MAX_DIM,
    ensures
        r == product_entry(n as int, (n / 2) as int, (n / 2) as int),
{
    let mut a: Vec<Vec<i64>> = Vec::new();
    let mut b: Vec<Vec<i64>> = Vec::new();
    let mut i: usize = 0;
    while i < n
        invariant
            i <= n <= MATRIX_MAX_DIM,
            holds_grid(a@, i as int, n as int, |r: int, c: int| left_entry(r, c)),
            holds_grid(b@, i as int, n as int, |r: int, c: int| right_entry(r, c)),
        decreases n - i,
    {
        let mut row_a: Vec<i64> = Vec::new();
        let mut row_b: Vec<i64> = Vec::new();
        let mut j: usize = 0;
        while j < n
            invariant
                i < n,
                j <= n <= MATRIX_MAX_DIM,
                row_a@.len() == j,
                row_b@.len() == j,
                forall|c: int| 0 <= c < j ==> #[trigger] row_a@[c] == left_entry(i as int, c),
                forall|c: int| 0 <= c < j ==> #[trigger] row_b@[c] == right_entry(i as int, c),
            decreases n - j,
        {
            row_a.push((i + j) as i64);
            row_b.push(i as i64 - j as i64);
            j = j + 1;
        }
        a.push(row_a);
        b.push(row_b);
        i = i + 1;
    }
    let mut c: Vec<Vec<i64>> = Vec::new();
    let mut i: usize = 0;
    while i < n
        invariant
            i <= n,
            1 <= n <= MATRIX_MAX_DIM,
            holds_grid(a@, n as int, n as int, |r: int, c: int| left_entry(r, c)),
            holds_grid(b@, n as int, n as int, |r: int, c: int| right_entry(r, c)),
            holds_grid(c@, i as int, n as int, |r: int, c: int| product_entry(n as int, r, c)),
        decreases n - i,
    {
        let mut row: Vec<i64> = Vec::new();
        let mut j: usize = 0;
        while j < n
            invariant
                i < n,
                j <= n,
                1 <= n <= MATRIX_MAX_DIM,
                holds_grid(a@, n as int, n as int, |r: int, c: int| left_entry(r, c)),
                holds_grid(b@, n as int, n as int, |r: int, c: int| right_entry(r, c)),
                row@.len() == j,
                forall|col: int|
                    0 <= col < j ==> #[trigger] row@[col] == product_entry(n as int, i as int, col),
            decreases n - j,
        {
            let entry = dot_row_col(&a, &b, i, j, n);
            row.push(entry);
            j = j + 1;
        }
        c.push(row);
        i = i + 1;
    }
    c[n / 2][n / 2]
}

/// `matrix_multiply` is idempotent: two calls with the same argument return the same value.
pub proof fn lemma_matrix_multiply_idempotent(n: usize, r1: i64, r2: i64)
    requires
        call_ensures(matrix_multiply, (n,), r1),
        call_ensures(matrix_multiply, (n,), r2),
    ensures
        r1 == r2,
{
}

}
