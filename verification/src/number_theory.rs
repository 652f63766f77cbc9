//! Divisibility, as far as the proof that the field order is prime needs it.

use vstd::arithmetic::div_mod::{lemma_fundamental_div_mod, lemma_mod_multiples_basic};
use vstd::prelude::*;

verus! {

/// `n` has no divisor between one and itself.
pub open spec fn is_prime(n: int) -> bool {
    &&& n >= 2
    &&& forall|d: int| 1 < d < n ==> #[trigger] (n % d) != 0
}

/// A multiple of `d` leaves no remainder.
pub proof fn lemma_multiple(d: int, k: int)
    requires
        d > 0,
    ensures
        (d * k) % d == 0,
        (k * d) % d == 0,
{
    lemma_mod_multiples_basic(k, d);
    assert(d * k == k * d) by (nonlinear_arith);
}

/// What leaves no remainder is a multiple.
pub proof fn lemma_quotient(n: int, d: int) -> (k: int)
    requires
        d > 0,
        n % d == 0,
    ensures
        n == d * k,
        k == n / d,
{
    lemma_fundamental_div_mod(n, d);
    n / d
}

/// A divisor of a positive integer is no larger than it.
pub proof fn lemma_divisor_bound(n: int, d: int)
    requires
        n > 0,
        d > 0,
        n % d == 0,
    ensures
        d <= n,
        n / d >= 1,
{
    let k = lemma_quotient(n, d);
    assert(k >= 1) by (nonlinear_arith)
        requires
            n == d * k,
            n > 0,
            d > 0,
    ;
    assert(d <= d * k) by (nonlinear_arith)
        requires
            k >= 1,
            d > 0,
    ;
}

/// Bézout: the greatest common divisor of `a` and `b` is a combination of them.
pub proof fn lemma_bezout(a: int, b: int) -> (r: (int, int, int))
    requires
        a > 0,
        b >= 0,
    ensures
        r.0 > 0,
        a % r.0 == 0,
        b % r.0 == 0,
        r.0 == r.1 * a + r.2 * b,
    decreases b,
{
    if b == 0 {
        lemma_multiple(a, 1);
        assert(a * 1 == a);
        (a, 1, 0)
    } else {
        let q = a / b;
        let rem = a % b;
        lemma_fundamental_div_mod(a, b);
        let (g, x, y) = lemma_bezout(b, rem);
        // g = x * b + y * rem = y * a + (x - q * y) * b
        assert(g == y * a + (x - q * y) * b) by (nonlinear_arith)
            requires
                g == x * b + y * rem,
                a == b * q + rem,
        ;
        let kb = lemma_quotient(b, g);
        let kr = lemma_quotient(rem, g);
        assert(a == g * (kb * q + kr)) by (nonlinear_arith)
            requires
                a == b * q + rem,
                b == g * kb,
                rem == g * kr,
        ;
        lemma_multiple(g, kb * q + kr);
        (g, y, x - q * y)
    }
}

/// Euclid: a prime that divides no factor of a product's divisor leaves the
/// divisor to the other factor. Where `m` divides `q * rest` and the prime
/// `q` does not divide `m`, `m` divides `rest`.
pub proof fn lemma_euclid(q: int, m: int, rest: int)
    requires
        is_prime(q),
        m > 0,
        (q * rest) % m == 0,
        m % q != 0,
    ensures
        rest % m == 0,
{
    let (g, x, y) = lemma_bezout(q, m);
    lemma_divisor_bound(q, g);
    if g != 1 {
        if g < q {
            assert(q % g != 0);
        }
        assert(g == q);
    }
    let k = lemma_quotient(q * rest, m);
    // rest = x * q * rest + y * m * rest = m * (x * k + y * rest)
    assert(rest == m * (x * k + y * rest)) by (nonlinear_arith)
        requires
            1 == x * q + y * m,
            q * rest == m * k,
    ;
    lemma_multiple(m, x * k + y * rest);
}

/// A divisor of a product of a prime and a rest is a multiple of the prime
/// or divides the rest.
pub proof fn lemma_prime_factor(q: int, m: int, rest: int)
    requires
        is_prime(q),
        m > 0,
        (q * rest) % m == 0,
    ensures
        m % q == 0 || rest % m == 0,
{
    if m % q != 0 {
        lemma_euclid(q, m, rest);
    }
}

/// 2 is prime.
pub proof fn lemma_prime_2()
    ensures
        is_prime(2),
{
}

/// 3 is prime.
pub proof fn lemma_prime_3()
    ensures
        is_prime(3),
{
    assert(forall|d: u32| 1 < d < 3 ==> #[trigger] (3u32 % d) != 0) by (bit_vector);
    assert forall|d: int| 1 < d < 3 implies #[trigger] (3int % d) != 0 by {
        assert(3u32 % (d as u32) != 0);
    }
}

/// 5 is prime.
pub proof fn lemma_prime_5()
    ensures
        is_prime(5),
{
    assert(forall|d: u32| 1 < d < 5 ==> #[trigger] (5u32 % d) != 0) by (bit_vector);
    assert forall|d: int| 1 < d < 5 implies #[trigger] (5int % d) != 0 by {
        assert(5u32 % (d as u32) != 0);
    }
}

/// 17 is prime.
pub proof fn lemma_prime_17()
    ensures
        is_prime(17),
{
    assert(forall|d: u32| 1 < d < 17 ==> #[trigger] (17u32 % d) != 0) by (bit_vector);
    assert forall|d: int| 1 < d < 17 implies #[trigger] (17int % d) != 0 by {
        assert(17u32 % (d as u32) != 0);
    }
}

/// 257 is prime.
pub proof fn lemma_prime_257()
    ensures
        is_prime(257),
{
    assert(forall|d: u32| 1 < d < 257 ==> #[trigger] (257u32 % d) != 0) by (bit_vector);
    assert forall|d: int| 1 < d < 257 implies #[trigger] (257int % d) != 0 by {
        assert(257u32 % (d as u32) != 0);
    }
}

/// 65537 is prime.
pub proof fn lemma_prime_65537()
    ensures
        is_prime(65537),
{
    assert(forall|d: u32| 1 < d < 65537 ==> #[trigger] (65537u32 % d) != 0) by (bit_vector);
    assert forall|d: int| 1 < d < 65537 implies #[trigger] (65537int % d) != 0 by {
        assert(65537u32 % (d as u32) != 0);
    }
}

} // verus!
