//! How likely a uniform sample is to hold one of the files that cannot be got
//! back.

use vstd::arithmetic::power::*;
use vstd::prelude::*;
use crate::reservoir;

verus! {

/// In how many ways `k` of `n` files can be picked one after the other.
pub open spec fn picks(n: nat, k: nat) -> nat
    decreases k,
{
    if k == 0 {
        1
    } else if n + 1 < k {
        0
    } else {
        picks(n, (k - 1) as nat) * ((n + 1 - k) as nat)
    }
}

/// The picks of `k` of `n` files, each with all orders of the files that are
/// left, are all orders of the `n` files.
pub proof fn law_picks_and_rests_are_all_orders(n: nat, k: nat)
    requires
        k <= n,
    ensures
        picks(n, k) * reservoir::factorial((n - k) as nat) == reservoir::factorial(n),
    decreases k,
{
    if k > 0 {
        let j = (k - 1) as nat;
        law_picks_and_rests_are_all_orders(n, j);
        let p = picks(n, j);
        let c = (n + 1 - k) as nat;
        let f = reservoir::factorial((n - k) as nat);
        assert(reservoir::factorial(c) == c * f);
        assert((p * c) * f == p * (c * f)) by (nonlinear_arith);
    } else {
        assert(1 * reservoir::factorial(n) == reservoir::factorial(n)) by (nonlinear_arith);
    }
}

/// If `a * d <= c * b`, the same holds of their powers.
proof fn lemma_raise(a: nat, b: nat, c: nat, d: nat, e: nat)
    requires
        a * d <= c * b,
    ensures
        pow(a as int, e) * pow(d as int, e) <= pow(c as int, e) * pow(b as int, e),
    decreases e,
{
    lemma_pow_distributes(a as int, d as int, e);
    lemma_pow_distributes(c as int, b as int, e);
    lemma_ordered_powers(a * d, c * b, e);
}

proof fn lemma_ordered_powers(x: nat, y: nat, e: nat)
    requires
        x <= y,
    ensures
        0 <= pow(x as int, e) <= pow(y as int, e),
    decreases e,
{
    reveal(pow);
    if e > 0 {
        lemma_ordered_powers(x, y, (e - 1) as nat);
        let p = pow(x as int, (e - 1) as nat);
        let q = pow(y as int, (e - 1) as nat);
        assert(0 <= x * p <= y * q) by (nonlinear_arith)
            requires
                0 <= p <= q,
                0 <= x <= y,
        ;
    }
}

/// Of the samples of `k` out of `n` files, of which `bad` cannot be got back,
/// at most a share of `0.99^k` holds none of the bad ones, if those are at
/// least one in a hundred. So a uniform sample catches one with a probability
/// of at least `1 - 0.99^k`.
pub proof fn law_sample_catches_bad_files(n: nat, bad: nat, k: nat)
    requires
        k <= n,
        bad <= n,
        n <= 100 * bad,
    ensures
        picks((n - bad) as nat, k) * pow(100, k) <= pow(99, k) * picks(n, k),
    decreases k,
{
    reveal(pow);
    if k > 0 {
        let j = (k - 1) as nat;
        law_sample_catches_bad_files(n, bad, j);
        let m = (n - bad) as nat;
        let a = picks(m, j) as int;
        let b = picks(n, j) as int;
        let c = n + 1 - k;
        let d = if m + 1 < k {
            0
        } else {
            m + 1 - k
        };
        let h = pow(100, j);
        let g = pow(99, j);
        lemma_pow_positive(100, j);
        lemma_pow_positive(99, j);
        assert(picks(m, k) == a * d);
        assert(picks(n, k) == b * c);
        assert((a * d) * (100 * h) <= (99 * g) * (b * c)) by (nonlinear_arith)
            requires
                a * h <= g * b,
                0 <= 100 * d <= 99 * c,
                0 <= a * h,
                0 <= g * b,
        {
            assert((a * d) * (100 * h) == (a * h) * (100 * d));
            assert((99 * g) * (b * c) == (g * b) * (99 * c));
            assert((a * h) * (100 * d) <= (g * b) * (100 * d));
            assert((g * b) * (100 * d) <= (g * b) * (99 * c));
        }
    }
}

/// `0.99^300` is at most one in twenty.
proof fn lemma_three_hundred()
    ensures
        20 * pow(99, 300) <= pow(100, 300),
        pow(100, 300) > 0,
{
    let x = pow(99, 10);
    let y = pow(100, 10);
    assert(x * 10_000 <= 9_044 * y) by {
        reveal_with_fuel(pow, 11);
    }
    lemma_pow_positive(99, 10);
    lemma_pow_positive(100, 10);
    lemma_raise(x as nat, y as nat, 9_044, 10_000, 10);
    lemma_pow_multiplies(99, 10, 10);
    lemma_pow_multiplies(100, 10, 10);
    let x2 = pow(99, 100);
    let y2 = pow(100, 100);
    let p = pow(9_044, 10);
    let q = pow(10_000, 10);
    lemma_pow_positive(99, 100);
    lemma_pow_positive(100, 100);
    lemma_pow_positive(10_000, 10);
    assert(p * 10_000 <= 3_662 * q) by {
        reveal_with_fuel(pow, 11);
    }
    assert(x2 * 10_000 <= 3_662 * y2) by (nonlinear_arith)
        requires
            x2 * q <= p * y2,
            p * 10_000 <= 3_662 * q,
            q > 0,
            y2 > 0,
    {
        assert((x2 * 10_000) * q == (x2 * q) * 10_000);
        assert((p * y2) * 10_000 == (p * 10_000) * y2);
        assert((p * 10_000) * y2 <= (3_662 * q) * y2);
        assert((3_662 * q) * y2 == (3_662 * y2) * q);
    }
    lemma_raise(x2 as nat, y2 as nat, 3_662, 10_000, 3);
    lemma_pow_multiplies(99, 100, 3);
    lemma_pow_multiplies(100, 100, 3);
    lemma_pow_positive(100, 300);
    let x3 = pow(99, 300);
    let y3 = pow(100, 300);
    assert(pow(10_000, 3) == 1_000_000_000_000 && pow(3_662, 3) == 49_108_313_528) by {
        reveal_with_fuel(pow, 4);
    }
    assert(x3 * 1_000_000_000_000 <= 49_108_313_528 * y3);
}

/// A sample of three hundred files misses the bad ones, if those are at least
/// one in a hundred, in at most one case out of twenty.
pub proof fn law_three_hundred_files_suffice(n: nat, bad: nat)
    requires
        300 <= n,
        bad <= n,
        n <= 100 * bad,
    ensures
        20 * picks((n - bad) as nat, 300) <= picks(n, 300),
{
    law_sample_catches_bad_files(n, bad, 300);
    lemma_three_hundred();
    let a = picks((n - bad) as nat, 300);
    let b = picks(n, 300);
    let g = pow(99, 300);
    let h = pow(100, 300);
    assert(20 * a <= b) by (nonlinear_arith)
        requires
            a * h <= g * b,
            20 * g <= h,
            h > 0,
            b >= 0,
    {
        assert(20 * (a * h) <= 20 * (g * b));
        assert(20 * (g * b) == (20 * g) * b);
        assert((20 * g) * b <= h * b);
        assert(20 * (a * h) == (20 * a) * h);
    }
}

} // verus!
