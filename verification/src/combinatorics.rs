//! Factorials and binomial coefficients over `u128`.
use vstd::prelude::*;
use vstd::arithmetic::div_mod::*;
use vstd::arithmetic::mul::*;

verus! {

/// The number of values a `u128` can hold: 2^128.
pub open spec fn u128_modulus() -> nat {
    0x1_0000_0000_0000_0000_0000_0000_0000_0000nat
}

/// n! over the naturals.
pub open spec fn factorial(n: nat) -> nat
    decreases n,
{
    if n == 0 {
        1
    } else {
        n * factorial((n - 1) as nat)
    }
}

/// n! as `u128` arithmetic computes it when every product wraps around.
pub open spec fn wrapped_factorial(n: nat) -> nat {
    factorial(n) % u128_modulus()
}

/// The factorial of `x`, computed with wrapping `u128` multiplication.
///
/// The result is n! reduced modulo 2^128; where n! fits in a `u128` it is n! itself.
pub fn fact(x: u128) -> (r: u128)
    ensures
        r as nat == wrapped_factorial(x as nat),
        factorial(x as nat) <= u128::MAX ==> r as nat == factorial(x as nat),
{
    let mut acc: u128 = 1;
    let mut i: u128 = 2;
    proof {
        lemma_small_mod(1nat, u128_modulus());
        reveal_with_fuel(factorial, 2);
    }
    if x < 2 {
        return acc;
    }
    while i < x
        invariant
            2 <= i <= x,
            acc as nat == wrapped_factorial((i - 1) as nat),
        decreases x - i,
    {
        proof {
            lemma_wrapped_factorial_step(i as nat);
        }
        acc = acc.wrapping_mul(i);
        i = i + 1;
    }
    proof {
        lemma_wrapped_factorial_step(x as nat);
    }
    acc = acc.wrapping_mul(x);
    proof {
        if factorial(x as nat) <= u128::MAX {
            lemma_small_mod(factorial(x as nat), u128_modulus());
        }
    }
    acc
}

/// One step of the wrapped factorial: (n-1)! mod m times n, mod m, is n! mod m.
proof fn lemma_wrapped_factorial_step(n: nat)
    requires
        n >= 1,
    ensures
        (wrapped_factorial((n - 1) as nat) * n) % u128_modulus() == wrapped_factorial(n),
{
    let m = u128_modulus() as int;
    lemma_mul_mod_noop_left(factorial((n - 1) as nat) as int, n as int, m);
    lemma_mul_is_commutative(factorial((n - 1) as nat) as int, n as int);
}

/// Counting up from 16, the first argument whose wrapped factorial is smaller than the
/// wrapped factorial before it: the first n whose n! no longer fits in a `u128`.
pub fn first_wrapping_factorial() -> (r: u128)
    ensures
        r == 35,
        factorial((r - 1) as nat) <= u128::MAX,
        factorial(r as nat) > u128::MAX,
        wrapped_factorial(r as nat) < wrapped_factorial((r - 1) as nat),
{
    let mut max: u128 = 16;
    let mut last: u128 = 0;
    proof {
        lemma_factorial_34_35();
    }
    loop
        invariant
            16 <= max <= 35,
            max == 16 ==> last == 0,
            max > 16 ==> last as nat == wrapped_factorial((max - 1) as nat),
            factorial(34) <= u128::MAX,
            wrapped_factorial(35) < factorial(34),
            wrapped_factorial(34) == factorial(34),
        ensures
            max == 35,
        decreases 35 - max,
    {
        let this = fact(max);
        proof {
            if max <= 34 {
                lemma_small_factorials_exact(max as nat, 34);
                lemma_small_factorials_exact((max - 1) as nat, 34);
                lemma_factorial_monotone((max - 1) as nat, max as nat);
            }
        }
        if last > this {
            break;
        }
        last = this;
        max = max + 1;
    }
    max
}

/// n! fits in a `u128` for every n up to 34.
pub proof fn lemma_factorial_fits(n: nat)
    requires
        n <= 34,
    ensures
        factorial(n) <= u128::MAX,
        wrapped_factorial(n) == factorial(n),
        factorial(n) >= 1,
{
    lemma_factorial_34_35();
    lemma_small_factorials_exact(n, 34);
}

/// The values of 34! and 35! against the `u128` range.
proof fn lemma_factorial_34_35()
    ensures
        factorial(34) == 295232799039604140847618609643520000000nat,
        factorial(34) <= u128::MAX,
        factorial(35) > u128::MAX,
        wrapped_factorial(34) == factorial(34),
        wrapped_factorial(35) == 124676958757991025765413114570153656320nat,
        wrapped_factorial(35) < factorial(34),
{
    reveal_with_fuel(factorial, 36);
    lemma_small_mod(factorial(34), u128_modulus());
}

/// The binomial coefficient, by Pascal's rule.
pub open spec fn binomial(n: nat, k: nat) -> nat
    decreases n,
{
    if k == 0 {
        1
    } else if n == 0 {
        0
    } else {
        binomial((n - 1) as nat, (k - 1) as nat) + binomial((n - 1) as nat, k)
    }
}

/// The number of ways to pick `k` of `n` items, computed as n! / k! / (n - k)! with
/// wrapping `u128` factorials.
///
/// Where n! fits in a `u128` the result is the binomial coefficient.
pub fn n_choose_k(n: u128, k: u128) -> (r: u128)
    requires
        k <= n,
        wrapped_factorial(k as nat) != 0,
        wrapped_factorial((n - k) as nat) != 0,
    ensures
        r as nat == wrapped_factorial(n as nat) / wrapped_factorial(k as nat) / wrapped_factorial(
            (n - k) as nat,
        ),
        factorial(n as nat) <= u128::MAX ==> r as nat == binomial(n as nat, k as nat),
{
    let fk = fact(k);
    let fnk = fact(n - k);
    let r = fact(n) / fk / fnk;
    proof {
        if factorial(n as nat) <= u128::MAX {
            lemma_choose_exact(n as nat, k as nat);
        }
    }
    r
}

/// Every factorial is positive.
pub proof fn lemma_factorial_positive(n: nat)
    ensures
        factorial(n) >= 1,
    decreases n,
{
    if n > 0 {
        lemma_factorial_positive((n - 1) as nat);
        lemma_mul_increases((n - 1) as int + 1, factorial((n - 1) as nat) as int);
    }
}

/// Factorials grow with their argument.
pub proof fn lemma_factorial_monotone(k: nat, n: nat)
    requires
        k <= n,
    ensures
        factorial(k) <= factorial(n),
    decreases n,
{
    if k < n {
        lemma_factorial_monotone(k, (n - 1) as nat);
        lemma_factorial_positive((n - 1) as nat);
        lemma_mul_increases(n as int, factorial((n - 1) as nat) as int);
    }
}

/// Where n! fits in a `u128`, so does every smaller factorial, and wrapping changes none of them.
pub proof fn lemma_small_factorials_exact(k: nat, n: nat)
    requires
        k <= n,
        factorial(n) <= u128::MAX,
    ensures
        wrapped_factorial(k) == factorial(k),
        wrapped_factorial(k) >= 1,
{
    lemma_factorial_monotone(k, n);
    lemma_factorial_positive(k);
    lemma_small_mod(factorial(k), u128_modulus());
}

/// n! = C(n, k) * k! * (n - k)!
pub proof fn lemma_factorial_split(n: nat, k: nat)
    requires
        k <= n,
    ensures
        factorial(n) == binomial(n, k) * factorial(k) * factorial((n - k) as nat),
    decreases n,
{
    if k == 0 {
        assert(binomial(n, 0) == 1);
        assert(factorial(0) == 1);
        assert(factorial(n) == binomial(n, k) * factorial(k) * factorial((n - k) as nat));
    } else if k == n {
        lemma_binomial_diagonal(n);
        assert(factorial((n - k) as nat) == 1);
        assert(factorial(n) == binomial(n, k) * factorial(k) * factorial((n - k) as nat));
    } else {
        let n1 = (n - 1) as nat;
        let k1 = (k - 1) as nat;
        lemma_factorial_split(n1, k1);
        lemma_factorial_split(n1, k);
        let a = binomial(n1, k1);
        let b = binomial(n1, k);
        let f1 = factorial(k1);
        let g = factorial((n - k) as nat);
        let g1 = factorial((n1 - k) as nat);
        let fn1 = factorial(n1);
        assert(factorial(k) == k * f1);
        assert(g == (n - k) * g1);
        assert(factorial(n) == n * fn1);
        assert(binomial(n, k) == a + b);
        assert(fn1 == a * f1 * g);
        assert(fn1 == b * factorial(k) * g1);
        assert((a + b) * (k * f1) * ((n - k) * g1) == n * fn1) by (nonlinear_arith)
            requires
                fn1 == a * f1 * ((n - k) * g1),
                fn1 == b * (k * f1) * g1,
                k < n,
        {
            assert((a + b) * (k * f1) * ((n - k) * g1) == k * (a * f1 * ((n - k) * g1)) + (n - k)
                * (b * (k * f1) * g1));
        }
        assert(binomial(n, k) * factorial(k) * g == (a + b) * (k * f1) * ((n - k) * g1));
        assert(factorial(n) == binomial(n, k) * factorial(k) * g);
    }
}

/// Choosing which `k` of `n` items to keep is choosing which `n - k` to drop:
/// C(n, k) = C(n, n - k).
pub proof fn law_binomial_symmetric(n: nat, k: nat)
    requires
        k <= n,
    ensures
        binomial(n, k) == binomial(n, (n - k) as nat),
{
    lemma_factorial_split(n, k);
    lemma_factorial_split(n, (n - k) as nat);
    lemma_factorial_positive(k);
    lemma_factorial_positive((n - k) as nat);
    let a = binomial(n, k) as int;
    let b = binomial(n, (n - k) as nat) as int;
    let x = factorial(k) as int;
    let y = factorial((n - k) as nat) as int;
    assert((n - (n - k)) as nat == k);
    assert(a == b) by (nonlinear_arith)
        requires
            a * x * y == b * y * x,
            x >= 1,
            y >= 1,
    {
        assert(a * x * y == b * x * y);
        if a < b {
            assert(a * (x * y) < b * (x * y));
        } else if a > b {
            assert(a * (x * y) > b * (x * y));
        }
    }
}

/// C(n, n) = 1
pub proof fn lemma_binomial_diagonal(n: nat)
    ensures
        binomial(n, n) == 1,
    decreases n,
{
    if n > 0 {
        lemma_binomial_above((n - 1) as nat, n);
        lemma_binomial_diagonal((n - 1) as nat);
    }
}

/// C(n, k) = 0 when k > n
pub proof fn lemma_binomial_above(n: nat, k: nat)
    requires
        k > n,
    ensures
        binomial(n, k) == 0,
    decreases n,
{
    if n > 0 {
        lemma_binomial_above((n - 1) as nat, (k - 1) as nat);
        lemma_binomial_above((n - 1) as nat, k);
    }
}

/// Where n! fits in a `u128`, n! / k! / (n - k)! on wrapped factorials is C(n, k).
proof fn lemma_choose_exact(n: nat, k: nat)
    requires
        k <= n,
        factorial(n) <= u128::MAX,
    ensures
        wrapped_factorial(n) / wrapped_factorial(k) / wrapped_factorial((n - k) as nat) == binomial(
            n,
            k,
        ),
{
    lemma_small_factorials_exact(n, n);
    lemma_small_factorials_exact(k, n);
    lemma_small_factorials_exact((n - k) as nat, n);
    lemma_factorial_split(n, k);
    let b = binomial(n, k) as int;
    let fk = factorial(k) as int;
    let fnk = factorial((n - k) as nat) as int;
    assert(factorial(n) as int == (b * fnk) * fk) by {
        lemma_mul_is_associative(b, fk, fnk);
        lemma_mul_is_commutative(fk, fnk);
        lemma_mul_is_associative(b, fnk, fk);
    }
    lemma_div_multiples_vanish_fancy(b * fnk, 0, fk);
    lemma_div_multiples_vanish_fancy(b, 0, fnk);
}

} // verus!
