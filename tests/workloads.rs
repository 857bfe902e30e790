use microbench::fibonacci::FIB_MAX_INDEX;
use microbench::matrix::MATRIX_MAX_DIM;
use microbench::tree::TREE_MAX_DEPTH;
use microbench::{binary_trees, create_tree, fibonacci, matrix_multiply, prime_sieve, TreeNode};

#[test]
fn fibonacci_base_cases() {
    assert_eq!(fibonacci(0), 0);
    assert_eq!(fibonacci(1), 1);
}

#[test]
fn fibonacci_small_values() {
    assert_eq!(fibonacci(2), 1);
    assert_eq!(fibonacci(3), 2);
    assert_eq!(fibonacci(10), 55);
    assert_eq!(fibonacci(20), 6765);
}

#[test]
fn fibonacci_benchmark_value() {
    assert_eq!(fibonacci(42), 267914296);
}

#[test]
fn fibonacci_negative_argument_returned() {
    assert_eq!(fibonacci(-1), -1);
    assert_eq!(fibonacci(-7), -7);
}

#[test]
fn fibonacci_index_limit() {
    assert_eq!(FIB_MAX_INDEX, 92);
}

#[test]
fn prime_sieve_small_bounds() {
    assert_eq!(prime_sieve(2), 1);
    assert_eq!(prime_sieve(3), 2);
    assert_eq!(prime_sieve(4), 2);
    assert_eq!(prime_sieve(10), 4);
    assert_eq!(prime_sieve(100), 25);
}

#[test]
fn prime_sieve_below_two_is_empty() {
    assert_eq!(prime_sieve(0), 0);
    assert_eq!(prime_sieve(1), 0);
}

#[test]
fn prime_sieve_square_of_prime() {
    assert_eq!(prime_sieve(49), 15);
    assert_eq!(prime_sieve(121), 30);
}

#[test]
fn prime_sieve_matches_trial_division() {
    for n in 0..300usize {
        let mut expected = 0usize;
        for p in 2..=n {
            if (2..p).all(|d| p % d != 0) {
                expected += 1;
            }
        }
        assert_eq!(prime_sieve(n), expected);
    }
}

#[test]
fn prime_sieve_benchmark_value() {
    assert_eq!(prime_sieve(10_000_000), 664579);
}

#[test]
fn binary_trees_single_leaf() {
    assert_eq!(binary_trees(0), 1);
}

#[test]
fn binary_trees_node_counts() {
    for depth in 0..12i32 {
        assert_eq!(binary_trees(depth), (1i32 << (depth + 1)) - 1);
    }
}

#[test]
fn binary_trees_benchmark_value() {
    assert_eq!(binary_trees(18), 524287);
}

#[test]
fn binary_trees_depth_limit() {
    assert_eq!(TREE_MAX_DEPTH, 30);
}

#[test]
fn check_counts_hand_built_trees() {
    assert_eq!(TreeNode::Leaf.check(), 1);
    let pair = TreeNode::Node(Box::new(TreeNode::Leaf), Box::new(TreeNode::Leaf));
    assert_eq!(pair.check(), 3);
    let lopsided = TreeNode::Node(Box::new(pair), Box::new(TreeNode::Leaf));
    assert_eq!(lopsided.check(), 5);
}

#[test]
fn create_tree_shape() {
    assert!(matches!(create_tree(0), TreeNode::Leaf));
    match create_tree(1) {
        TreeNode::Node(left, right) => {
            assert!(matches!(*left, TreeNode::Leaf));
            assert!(matches!(*right, TreeNode::Leaf));
        }
        TreeNode::Leaf => panic!("depth 1 must be an inner node"),
    }
    assert_eq!(create_tree(4).check(), 31);
}

fn float_centre_entry(n: usize) -> f64 {
    let mut a = vec![vec![0.0; n]; n];
    let mut b = vec![vec![0.0; n]; n];
    for i in 0..n {
        for j in 0..n {
            a[i][j] = (i + j) as f64;
            b[i][j] = (i as f64) - (j as f64);
        }
    }
    let mut sum = 0.0;
    for k in 0..n {
        sum += a[n / 2][k] * b[k][n / 2];
    }
    sum
}

#[test]
fn matrix_multiply_small_values() {
    assert_eq!(matrix_multiply(1), 0);
    assert_eq!(matrix_multiply(2), -1);
    assert_eq!(matrix_multiply(3), 2);
    assert_eq!(matrix_multiply(4), -2);
}

#[test]
fn matrix_multiply_matches_float_triple_loop() {
    for n in [1usize, 2, 5, 17, 64, 101] {
        assert_eq!(matrix_multiply(n) as f64, float_centre_entry(n));
    }
}

#[test]
fn matrix_multiply_benchmark_value() {
    assert_eq!(matrix_multiply(500), 10291750);
    assert_eq!(matrix_multiply(500) as f64, float_centre_entry(500));
}

#[test]
fn matrix_dimension_limit() {
    assert_eq!(MATRIX_MAX_DIM, 1_000_000);
}

#[test]
fn workloads_repeat_identically() {
    assert_eq!(fibonacci(25), fibonacci(25));
    assert_eq!(prime_sieve(100_000), prime_sieve(100_000));
    assert_eq!(matrix_multiply(60), matrix_multiply(60));
    assert_eq!(binary_trees(10), binary_trees(10));
}
