use erasure_bench::combinatorics::{fact, first_wrapping_factorial, n_choose_k};

#[test]
fn fact_small_values() {
    assert_eq!(fact(0), 1);
    assert_eq!(fact(1), 1);
    assert_eq!(fact(2), 2);
    assert_eq!(fact(5), 120);
    assert_eq!(fact(16), 20922789888000);
    assert_eq!(fact(20), 2432902008176640000);
}

#[test]
fn fact_largest_that_fits() {
    assert_eq!(fact(32), 263130836933693530167218012160000000);
    assert_eq!(fact(34), 295232799039604140847618609643520000000);
}

#[test]
fn fact_wraps_past_u128() {
    // 35! reduced modulo 2^128
    assert_eq!(fact(35), 124676958757991025765413114570153656320);
    assert!(fact(35) < fact(34));
    // 35! = 35 * 34! wraps exactly as a wrapping multiplication does
    assert_eq!(fact(35), fact(34).wrapping_mul(35));
}

#[test]
fn first_wrapping_factorial_is_35() {
    let max = first_wrapping_factorial();
    assert_eq!(max, 35);
    assert!(fact(max) < fact(max - 1));
    assert_eq!(fact(max - 1), 295232799039604140847618609643520000000);
}

#[test]
fn n_choose_k_values() {
    assert_eq!(n_choose_k(32, 16), 601080390);
    assert_eq!(n_choose_k(5, 2), 10);
    assert_eq!(n_choose_k(6, 3), 20);
    assert_eq!(n_choose_k(6, 0), 1);
    assert_eq!(n_choose_k(6, 6), 1);
    assert_eq!(n_choose_k(0, 0), 1);
    assert_eq!(n_choose_k(34, 17), 2333606220);
}

#[test]
fn n_choose_k_is_symmetric() {
    for n in 0..=34u128 {
        for k in 0..=n {
            assert_eq!(n_choose_k(n, k), n_choose_k(n, n - k));
        }
    }
}

#[test]
fn n_choose_k_follows_pascal() {
    for n in 1..=34u128 {
        for k in 1..n {
            assert_eq!(n_choose_k(n, k), n_choose_k(n - 1, k - 1) + n_choose_k(n - 1, k));
        }
    }
}

#[test]
fn n_choose_k_on_wrapped_factorials() {
    // 36! wraps; the result is the quotient of the wrapped values, as u128 arithmetic gives it
    let expected = fact(36) / fact(1) / fact(35);
    assert_eq!(n_choose_k(36, 1), expected);
    assert_ne!(n_choose_k(36, 1), 36);
}
