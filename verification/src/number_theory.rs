//! Primes, and what follows from them: Euclid's lemma, Fermat's little
//! theorem, and the reduction of an exponent modulo the totient of a product
//! of two primes.

use vstd::prelude::*;
use vstd::arithmetic::div_mod::{
    lemma_fundamental_div_mod,
    lemma_mod_bound,
    lemma_mod_equivalence,
    lemma_mod_mod,
    lemma_mod_multiples_basic,
    lemma_mul_mod_noop_left,
    lemma_mul_mod_noop_right,
    lemma_small_mod,
};
use vstd::arithmetic::power::{
    lemma0_pow,
    lemma1_pow,
    lemma_pow_adds,
    lemma_pow_mod_noop,
    lemma_pow_multiplies,
    pow,
};
use vstd::arithmetic::power2::{lemma2_to64, lemma_pow2_unfold, pow2};
use vstd::set_lib::{lemma_int_range, lemma_len_subset, set_int_range};
use crate::encoding::is_power_of_two;

verus! {

/// Whether `n` is a multiple of `d`.
pub open spec fn divides(d: int, n: int) -> bool {
    n % d == 0
}

/// A number of at least two that no smaller number of at least two divides.
pub open spec fn is_prime(p: nat) -> bool {
    p >= 2 && forall|d: int| 2 <= d < p ==> !#[trigger] divides(d, p as int)
}

/// Two numbers without a common divisor other than one.
pub open spec fn coprime(a: nat, b: nat) -> bool {
    forall|d: int| d >= 2 && #[trigger] divides(d, a as int) ==> !divides(d, b as int)
}

/// A multiple of `m` that is written as a product with `m`.
proof fn lemma_multiple(x: int, m: int)
    requires
        m > 0,
        x % m == 0,
    ensures
        x == m * (x / m),
{
    lemma_fundamental_div_mod(x, m);
}

/// Euclid's lemma for a first factor below the prime.
proof fn lemma_euclid_below(p: nat, a: int, b: int)
    requires
        is_prime(p),
        0 < a < p,
        (a * b) % (p as int) == 0,
    ensures
        b % (p as int) == 0,
    decreases a,
{
    let m = p as int;
    if a == 1 {
        assert(a * b == b) by (nonlinear_arith)
            requires
                a == 1,
        ;
    } else {
        let k = m / a;
        let r = m % a;
        lemma_fundamental_div_mod(m, a);
        lemma_mod_bound(m, a);
        assert(!divides(a, m));
        let c = (a * b) / m;
        lemma_multiple(a * b, m);
        assert(r * b == (b - k * c) * m) by (nonlinear_arith)
            requires
                m == a * k + r,
                a * b == m * c,
        ;
        lemma_mod_multiples_basic(b - k * c, m);
        lemma_euclid_below(p, r, b);
    }
}

/// Euclid's lemma: a prime that divides a product divides one of the
/// factors.
pub proof fn lemma_euclid(p: nat, a: int, b: int)
    requires
        is_prime(p),
        (a * b) % (p as int) == 0,
    ensures
        a % (p as int) == 0 || b % (p as int) == 0,
{
    let m = p as int;
    if a % m != 0 {
        lemma_mod_bound(a, m);
        lemma_mul_mod_noop_left(a, b, m);
        lemma_euclid_below(p, a % m, b);
    }
}

/// `1 * 2 * ... * n`.
pub open spec fn factorial(n: nat) -> int
    decreases n,
{
    if n == 0 {
        1
    } else {
        n * factorial((n - 1) as nat)
    }
}

/// The product of the numbers in a sequence.
pub open spec fn product(s: Seq<int>) -> int
    decreases s.len(),
{
    if s.len() == 0 {
        1
    } else {
        product(s.drop_last()) * s.last()
    }
}

/// A prime divides no factorial below its own.
proof fn lemma_factorial_not_multiple(p: nat, k: nat)
    requires
        is_prime(p),
        k < p,
    ensures
        factorial(k) % (p as int) != 0,
    decreases k,
{
    if k == 0 {
        lemma_small_mod(1, p);
    } else {
        lemma_factorial_not_multiple(p, (k - 1) as nat);
        if factorial(k) % (p as int) == 0 {
            lemma_euclid(p, k as int, factorial((k - 1) as nat));
            lemma_small_mod(k, p);
        }
    }
}

/// Taking one number out of a sequence divides the product by it.
proof fn lemma_product_remove(s: Seq<int>, k: int)
    requires
        0 <= k < s.len(),
    ensures
        product(s) == s[k] * product(s.remove(k)),
    decreases s.len(),
{
    if k == s.len() - 1 {
        assert(s.remove(k) =~= s.drop_last());
        assert(product(s.drop_last()) * s.last() == s.last() * product(s.drop_last()))
            by (nonlinear_arith);
    } else {
        let front = s.drop_last();
        lemma_product_remove(front, k);
        assert(s.remove(k).drop_last() =~= front.remove(k));
        assert(s.remove(k).last() == s.last());
        assert((s[k] * product(front.remove(k))) * s.last() == s[k] * (product(front.remove(k))
            * s.last())) by (nonlinear_arith);
    }
}

/// Among `n` different numbers between one and `n`, one is `n`.
proof fn lemma_pigeonhole(s: Seq<int>, n: nat)
    requires
        n >= 1,
        s.len() == n,
        s.no_duplicates(),
        forall|i: int| 0 <= i < n ==> 1 <= #[trigger] s[i] <= n,
    ensures
        exists|k: int| 0 <= k < n && s[k] == n,
{
    if !(exists|k: int| 0 <= k < n && s[k] == n) {
        let below = set_int_range(1, n as int);
        lemma_int_range(1, n as int);
        assert(s.to_set().subset_of(below)) by {
            assert forall|v: int| s.to_set().contains(v) implies below.contains(v) by {
                let i = choose|i: int| 0 <= i < s.len() && s[i] == v;
                assert(s[i] != n);
            }
        }
        lemma_len_subset(s.to_set(), below);
        s.unique_seq_to_set();
    }
}

/// The product of `n` different numbers between one and `n` is the
/// factorial of `n`.
proof fn lemma_product_of_permutation(s: Seq<int>, n: nat)
    requires
        s.len() == n,
        s.no_duplicates(),
        forall|i: int| 0 <= i < n ==> 1 <= #[trigger] s[i] <= n,
    ensures
        product(s) == factorial(n),
    decreases n,
{
    if n > 0 {
        lemma_pigeonhole(s, n);
        let k = choose|k: int| 0 <= k < n && s[k] == n;
        let rest = s.remove(k);
        assert forall|i: int| 0 <= i < n - 1 implies 1 <= #[trigger] rest[i] <= n - 1 by {
            if i < k {
                assert(rest[i] == s[i]);
            } else {
                assert(rest[i] == s[i + 1]);
            }
        }
        assert(rest.no_duplicates()) by {
            assert forall|i: int, j: int|
                0 <= i < rest.len() && 0 <= j < rest.len() && i != j implies rest[i] != rest[j] by {
                let i0 = if i < k { i } else { i + 1 };
                let j0 = if j < k { j } else { j + 1 };
                assert(rest[i] == s[i0] && rest[j] == s[j0]);
            }
        }
        lemma_product_of_permutation(rest, (n - 1) as nat);
        lemma_product_remove(s, k);
    }
}

/// The first `k` multiples of `a`, each reduced modulo `m`.
pub open spec fn multiples(a: int, m: int, k: nat) -> Seq<int> {
    Seq::new(k, |i: int| (a * (i + 1)) % m)
}

/// Modulo `m`, the product of the first `k` multiples of `a` is `a ^ k`
/// times the factorial of `k`.
proof fn lemma_product_of_multiples(a: int, m: int, k: nat)
    requires
        m > 0,
    ensures
        product(multiples(a, m, k)) % m == (pow(a, k) * factorial(k)) % m,
    decreases k,
{
    reveal(pow);
    if k == 0 {
        assert(pow(a, 0) * factorial(0) == 1) by (nonlinear_arith)
            requires
                pow(a, 0) == 1,
                factorial(0) == 1,
        ;
    } else {
        let s = multiples(a, m, k);
        let front = multiples(a, m, (k - 1) as nat);
        assert(s.drop_last() =~= front);
        lemma_product_of_multiples(a, m, (k - 1) as nat);
        let x = product(front);
        let y = pow(a, (k - 1) as nat) * factorial((k - 1) as nat);
        assert(product(s) == x * ((a * k) % m));
        lemma_mul_mod_noop_right(x, a * k, m);
        lemma_mul_mod_noop_left(x, a * k, m);
        lemma_mul_mod_noop_left(y, a * k, m);
        assert(y * (a * k) == pow(a, k) * factorial(k)) by (nonlinear_arith)
            requires
                y == pow(a, (k - 1) as nat) * factorial((k - 1) as nat),
                pow(a, k) == a * pow(a, (k - 1) as nat),
                factorial(k) == k * factorial((k - 1) as nat),
        ;
    }
}

/// Fermat's little theorem: a number that a prime `p` does not divide,
/// raised to `p - 1`, leaves one modulo `p`.
pub proof fn lemma_fermat_little(p: nat, a: nat)
    requires
        is_prime(p),
        a % p != 0,
    ensures
        pow(a as int, (p - 1) as nat) % (p as int) == 1,
{
    let m = p as int;
    let n = (p - 1) as nat;
    let s = multiples(a as int, m, n);
    assert forall|i: int| 0 <= i < n implies 1 <= #[trigger] s[i] <= n by {
        lemma_mod_bound(a * (i + 1), m);
        if (a * (i + 1)) % m == 0 {
            lemma_euclid(p, a as int, i + 1);
            lemma_small_mod((i + 1) as nat, p);
        }
    }
    assert(s.no_duplicates()) by {
        assert forall|i: int, j: int|
            0 <= i < s.len() && 0 <= j < s.len() && i != j implies s[i] != s[j] by {
            if s[i] == s[j] {
                let (lo, hi) = if i < j { (i, j) } else { (j, i) };
                lemma_mod_equivalence(a * (hi + 1), a * (lo + 1), m);
                assert(a * (hi + 1) - a * (lo + 1) == a * (hi - lo)) by (nonlinear_arith);
                lemma_euclid(p, a as int, hi - lo);
                lemma_small_mod((hi - lo) as nat, p);
            }
        }
    }
    lemma_product_of_permutation(s, n);
    lemma_product_of_multiples(a as int, m, n);
    lemma_factorial_not_multiple(p, n);
    let w = factorial(n);
    let e = pow(a as int, n);
    lemma_mod_equivalence(e * w, w, m);
    assert(e * w - w == (e - 1) * w) by (nonlinear_arith);
    lemma_euclid(p, e - 1, w);
    lemma_mod_equivalence(e, 1, m);
    lemma_small_mod(1, p);
}

/// Where `a ^ w` leaves one modulo `m`, the exponent of a power of `a`
/// can be reduced modulo `w`.
pub proof fn lemma_pow_period(a: int, w: nat, m: int, e: nat)
    requires
        m > 0,
        w > 0,
        pow(a, w) % m == 1,
    ensures
        pow(a, e) % m == pow(a, e % w) % m,
{
    let k = e / w;
    let r = e % w;
    lemma_fundamental_div_mod(e as int, w as int);
    lemma_pow_multiplies(a, w, k);
    lemma_pow_adds(a, w * k, r);
    lemma_pow_mod_noop(pow(a, w), k, m);
    lemma1_pow(k);
    lemma_mod_bound(pow(a, w), m);
    lemma_small_mod(1, m as nat);
    let x = pow(a, w * k);
    let y = pow(a, r);
    assert(x % m == 1);
    lemma_mul_mod_noop_left(x, y, m);
    assert(1 * y == y);
}

/// Two different primes do not divide one another.
pub proof fn lemma_primes_apart(p: nat, q: nat)
    requires
        is_prime(p),
        is_prime(q),
        p != q,
    ensures
        p % q != 0,
{
    if q < p {
        assert(!divides(q as int, p as int));
    } else {
        lemma_small_mod(p, q);
    }
}

/// What two different primes both divide, their product divides.
pub proof fn lemma_divisible_by_both(p: nat, q: nat, z: int)
    requires
        is_prime(p),
        is_prime(q),
        p != q,
        z % (p as int) == 0,
        z % (q as int) == 0,
    ensures
        p * q > 0,
        z % ((p * q) as int) == 0,
{
    let k = z / (p as int);
    lemma_multiple(z, p as int);
    lemma_euclid(q, p as int, k);
    lemma_primes_apart(p, q);
    let j = k / (q as int);
    lemma_multiple(k, q as int);
    assert(p * q > 0 && z == j * (p * q)) by (nonlinear_arith)
        requires
            p >= 2,
            q >= 2,
            z == p * k,
            k == q * j,
    ;
    lemma_mod_multiples_basic(j, (p * q) as int);
}

/// Two numbers that agree modulo each of two different primes agree modulo
/// their product.
pub proof fn lemma_congruent_mod_product(p: nat, q: nat, a: int, b: int)
    requires
        is_prime(p),
        is_prime(q),
        p != q,
        a % (p as int) == b % (p as int),
        a % (q as int) == b % (q as int),
    ensures
        p * q > 0,
        a % ((p * q) as int) == b % ((p * q) as int),
{
    lemma_mod_equivalence(a, b, p as int);
    lemma_mod_equivalence(a, b, q as int);
    lemma_divisible_by_both(p, q, a - b);
    lemma_mod_equivalence(a, b, (p * q) as int);
}

/// Modulo a prime `p`, the exponent of a power can be reduced modulo any
/// multiple `w` of `p - 1`: always where `p` does not divide the base, and
/// else where neither exponent is zero.
proof fn lemma_reduce_mod_prime(p: nat, x: nat, w: nat, a: nat)
    requires
        is_prime(p),
        w > 0,
        w % ((p - 1) as nat) == 0,
        x % p != 0 || (a >= 1 && a % w >= 1),
    ensures
        pow(x as int, a) % (p as int) == pow(x as int, a % w) % (p as int),
{
    let m = p as int;
    if x % p == 0 {
        lemma_pow_mod_noop(x as int, a, m);
        lemma_pow_mod_noop(x as int, a % w, m);
        lemma0_pow(a);
        lemma0_pow(a % w);
    } else {
        let f = (p - 1) as nat;
        lemma_fermat_little(p, x);
        lemma_pow_period(x as int, f, m, a);
        lemma_pow_period(x as int, f, m, a % w);
        let c = w / f;
        lemma_multiple(w as int, f as int);
        assert(c > 0) by (nonlinear_arith)
            requires
                w > 0,
                f > 0,
                w == f * c,
        ;
        lemma_mod_mod(a as int, f as int, c as int);
    }
}

/// With two different primes `p` and `q`, the exponent of a power modulo
/// `p * q` can be reduced modulo `(p - 1) * (q - 1)`: always where the base
/// has no factor in common with `p * q`, and else where neither exponent is
/// zero.
pub proof fn lemma_reduce_exponent(p: nat, q: nat, x: nat, a: nat)
    requires
        is_prime(p),
        is_prime(q),
        p != q,
        coprime(x, p * q) || (a >= 1 && a % (((p - 1) * (q - 1)) as nat) >= 1),
    ensures
        (p - 1) * (q - 1) > 0,
        p * q > 0,
        pow(x as int, a) % ((p * q) as int) == pow(x as int, a % (((p - 1) * (q - 1)) as nat)) % ((
        p * q) as int),
{
    let w = ((p - 1) * (q - 1)) as nat;
    assert((p - 1) * (q - 1) > 0 && p * q > 0) by (nonlinear_arith)
        requires
            p >= 2,
            q >= 2,
    ;
    lemma_mod_multiples_basic((q - 1) as int, (p - 1) as int);
    lemma_mod_multiples_basic((p - 1) as int, (q - 1) as int);
    assert((p - 1) * (q - 1) == (q - 1) * (p - 1)) by (nonlinear_arith);
    if coprime(x, p * q) {
        lemma_coprime_to_factors(p, q, x);
    }
    lemma_reduce_mod_prime(p, x, w, a);
    lemma_reduce_mod_prime(q, x, w, a);
    lemma_congruent_mod_product(p, q, pow(x as int, a), pow(x as int, a % w));
}

/// A number without a factor in common with `p * q` is a multiple of
/// neither.
pub proof fn lemma_coprime_to_factors(p: nat, q: nat, x: nat)
    requires
        p >= 2,
        q >= 2,
        coprime(x, p * q),
    ensures
        x % p != 0,
        x % q != 0,
{
    lemma_mod_multiples_basic(q as int, p as int);
    lemma_mod_multiples_basic(p as int, q as int);
    assert(p * q == q * p) by (nonlinear_arith);
    if x % p == 0 {
        assert(divides(p as int, x as int));
        assert(divides(p as int, (p * q) as int));
    }
    if x % q == 0 {
        assert(divides(q as int, x as int));
        assert(divides(q as int, (p * q) as int));
    }
}

/// What divides a power of two is a power of two.
pub proof fn lemma_divisor_of_power_of_two(n: nat, k: nat)
    requires
        n >= 1,
        pow2(k) % n == 0,
    ensures
        is_power_of_two(n),
    decreases k,
{
    lemma2_to64();
    if k == 0 {
        if n > 1 {
            lemma_small_mod(1, n);
        }
        assert(n == pow2(0));
    } else {
        let half = pow2((k - 1) as nat) as int;
        let c = (pow2(k) as int) / (n as int);
        lemma_pow2_unfold(k);
        lemma_multiple(pow2(k) as int, n as int);
        let a = (n / 2) as int;
        lemma_fundamental_div_mod(n as int, 2);
        if n % 2 == 1 {
            assert(half == (half - a * c) * n) by (nonlinear_arith)
                requires
                    2 * half == n * c,
                    n == 2 * a + 1,
            ;
            lemma_mod_multiples_basic(half - a * c, n as int);
            lemma_divisor_of_power_of_two(n, (k - 1) as nat);
        } else {
            assert(half == c * a && a >= 1) by (nonlinear_arith)
                requires
                    2 * half == n * c,
                    n == 2 * a,
                    n >= 1,
            ;
            lemma_mod_multiples_basic(c, a);
            lemma_divisor_of_power_of_two(a as nat, (k - 1) as nat);
            let j = choose|j: nat| a as nat == pow2(j);
            lemma_pow2_unfold(j + 1);
            assert(n == pow2(j + 1));
        }
    }
}

/// A number that is a multiple of neither of two primes has no factor in
/// common with their product.
pub proof fn lemma_coprime_from_factors(p: nat, q: nat, x: nat)
    requires
        is_prime(p),
        is_prime(q),
        x % p != 0,
        x % q != 0,
    ensures
        coprime(x, p * q),
{
    let n = (p * q) as int;
    assert forall|d: int| d >= 2 && #[trigger] divides(d, x as int) implies !divides(d, n) by {
        if divides(d, n) {
            let c = n / d;
            let y = (x as int) / d;
            lemma_multiple(n, d);
            lemma_multiple(x as int, d);
            lemma_mod_multiples_basic(q as int, p as int);
            assert(q * p == p * q) by (nonlinear_arith);
            lemma_euclid(p, d, c);
            if d % (p as int) == 0 {
                let k = d / (p as int);
                lemma_multiple(d, p as int);
                assert(x == (k * y) * p) by (nonlinear_arith)
                    requires
                        x == d * y,
                        d == p * k,
                ;
                lemma_mod_multiples_basic(k * y, p as int);
            } else {
                let c2 = c / (p as int);
                lemma_multiple(c, p as int);
                assert(q == d * c2 && c2 >= 1) by (nonlinear_arith)
                    requires
                        p * q == d * c,
                        c == p * c2,
                        p >= 2,
                        q >= 2,
                        d >= 2,
                ;
                assert(q == c2 * d && d <= q) by (nonlinear_arith)
                    requires
                        q == d * c2,
                        c2 >= 1,
                        d >= 2,
                ;
                lemma_mod_multiples_basic(c2, d);
                assert(divides(d, q as int));
            }
        }
    }
}

} // verus!
