//! What holds of the library as a whole: the two paths agree, and the
//! Chinese remainder theorem gives the power it is meant to give.

use vstd::prelude::*;
use vstd::arithmetic::div_mod::{
    lemma_add_mod_noop_right,
    lemma_mod_bound,
    lemma_mod_multiples_vanish,
    lemma_mod_twice,
    lemma_mul_mod_noop_left,
    lemma_small_mod,
};
use vstd::arithmetic::power::{
    lemma_pow1,
    lemma_pow_adds,
    lemma_pow_mod_noop,
    lemma_pow_multiplies,
    pow,
};
use vstd::arithmetic::power2::{lemma_pow2, lemma_pow2_adds, lemma_pow2_pos, pow2};
use crate::encoding::{
    be_value,
    has_bit_length,
    is_power_of_two,
    le_value,
    lemma_le_value_below,
};
use crate::keys::{has_factor_size, totient};
use crate::engine::{
    index_of,
    lemma_trapdoor_exponent,
    mixing,
    non_priviledged_returns,
    non_privileged_digest,
    non_privileged_outcome,
    privileged_digest,
    privileged_outcome,
    squaring_table,
    trapdoor_entry,
    trapdoor_exponent,
    trapdoor_table,
};
use crate::error::DiodonError;
use crate::number_theory::{
    coprime,
    divides,
    is_prime,
    lemma_coprime_from_factors,
    lemma_divisor_of_power_of_two,
    lemma_congruent_mod_product,
    lemma_coprime_to_factors,
    lemma_fermat_little,
    lemma_pow_period,
    lemma_primes_apart,
    lemma_reduce_exponent,
};
use crate::params::Params;
use crate::util::{
    crt_defined,
    crt_value,
    fermat_inverse,
    has_fermat_inverse,
    squaring_value,
    table_entry,
};

verus! {

/// The messages that the trapdoor serves: the number `x` of the message has
/// no factor in common with the modulus, or no power of two is a multiple of
/// the totient, so that no reduced exponent is zero.
pub open spec fn trapdoor_applies(x: nat, p: nat, q: nat) -> bool {
    coprime(x, p * q) || forall|k: nat| #[trigger] pow2(k) % totient(p, q) != 0
}

/// Entry `i` of the table is `x ^ (2 ^ (i * t)) mod n`. For the first entry,
/// which is `x` itself, this asks for `x` below `n`.
pub proof fn lemma_table_entry_power(x: nat, t: nat, n: nat, i: nat)
    requires
        n >= 1,
        i >= 1 || x < n,
    ensures
        table_entry(x, t, n, i) == pow(x as int, pow2(i * t)) % (n as int),
    decreases i,
{
    let m = n as int;
    if i == 0 {
        assert(i * t == 0) by (nonlinear_arith)
            requires
                i == 0,
        ;
        lemma_pow2(0);
        lemma_pow1(2);
        assert(pow2(0) == 1) by {
            reveal(pow);
        }
        lemma_pow1(x as int);
        lemma_small_mod(x, n);
    } else if i == 1 {
        assert(table_entry(x, t, n, 0) == x);
        assert(i * t == t) by (nonlinear_arith)
            requires
                i == 1,
        ;
        if x == 0 {
            lemma_pow_mod_bounds(0, pow2(t), n);
        } else {
            lemma_pow_mod_bounds(x, pow2(t), n);
        }
    } else {
        let before = ((i - 1) * t) as nat;
        lemma_table_entry_power(x, t, n, (i - 1) as nat);
        lemma_pow_mod_noop(pow(x as int, pow2(before)), pow2(t), m);
        lemma_pow_multiplies(x as int, pow2(before), pow2(t));
        lemma_pow2_adds(before, t);
        assert(before + t == i * t) by (nonlinear_arith)
            requires
                before == (i - 1) * t,
        ;
        lemma_pow_mod_bounds(x, pow2(i * t), n);
        lemma_pow_mod_bounds(x, pow2(before), n);
    }
}

/// A power of a natural number, reduced, is a natural number below the
/// modulus.
pub proof fn lemma_pow_mod_bounds(x: nat, e: nat, n: nat)
    requires
        n >= 1,
    ensures
        0 <= pow(x as int, e) % (n as int) < n,
{
    lemma_mod_bound(pow(x as int, e), n as int);
}

/// Squaring once is one product and one reduction.
pub proof fn lemma_squaring_once(b: nat, n: nat)
    requires
        n >= 1,
    ensures
        squaring_value(b, 1, n) == (b * b) % n,
{
    vstd::arithmetic::power2::lemma2_to64();
    vstd::arithmetic::power::lemma_square_is_pow2(b as int);
}

/// Where the privileged path provably computes entry `j` of the table: the
/// entry is not the message itself standing unreduced above the modulus, and
/// the exponent does not reduce to zero under a base that shares a factor
/// with the modulus.
pub open spec fn entry_agrees(x: nat, p: nat, q: nat, t: nat, j: nat) -> bool {
    &&& j >= 1 || x < p * q
    &&& coprime(x, p * q) || pow2(j * t) % totient(p, q) != 0
}

/// With the factors of the modulus, a table entry can be had from the
/// message alone: the privileged path computes the entry that the
/// non-privileged path has in its table.
pub proof fn lemma_entries_agree(x: nat, p: nat, q: nat, t: nat, j: nat)
    requires
        is_prime(p),
        is_prime(q),
        p != q,
        entry_agrees(x, p, q, t, j),
    ensures
        trapdoor_entry(x, p, q, t, j) == table_entry(x, t, p * q, j),
{
    let phi = totient(p, q);
    let a = pow2(j * t);
    assert(phi >= 1 && p * q >= 1) by (nonlinear_arith)
        requires
            p >= 2,
            q >= 2,
            phi == (p - 1) * (q - 1),
    ;
    lemma_trapdoor_exponent(j, t, phi);
    lemma_pow2(j * t);
    lemma_pow2_pos(j * t);
    if !coprime(x, p * q) {
        lemma_mod_bound(a as int, phi as int);
    }
    lemma_reduce_exponent(p, q, x, a);
    lemma_table_entry_power(x, t, p * q, j);
    lemma_pow_mod_bounds(x, trapdoor_exponent(j, t, phi), p * q);
}

/// Elsewhere the two entries differ: above the modulus the table holds the
/// message unreduced, and a base that shares a factor with the modulus has
/// no power that leaves one.
pub proof fn lemma_entries_differ(x: nat, p: nat, q: nat, t: nat, j: nat)
    requires
        is_prime(p),
        is_prime(q),
        p != q,
        !entry_agrees(x, p, q, t, j),
    ensures
        trapdoor_entry(x, p, q, t, j) != table_entry(x, t, p * q, j),
{
    let phi = totient(p, q);
    let n = p * q;
    let a = pow2(j * t);
    assert(phi >= 1 && n >= 4) by (nonlinear_arith)
        requires
            p >= 2,
            q >= 2,
            phi == (p - 1) * (q - 1),
            n == p * q,
    ;
    lemma_pow_mod_bounds(x, trapdoor_exponent(j, t, phi), n);
    if j == 0 && x >= n {
    } else {
        lemma_trapdoor_exponent(j, t, phi);
        lemma_pow2(j * t);
        lemma_pow2_pos(j * t);
        lemma_table_entry_power(x, t, n, j);
        assert(trapdoor_entry(x, p, q, t, j) == 1) by {
            reveal(pow);
            lemma_small_mod(1, n);
        }
        let d = choose|d: int| d >= 2 && divides(d, x as int) && divides(d, n as int);
        let base = x as int;
        let power = pow(base, a);
        let rest = pow(base, (a - 1) as nat);
        assert(power == base * rest) by {
            reveal(pow);
        }
        let xd = base / d;
        let nd = (n as int) / d;
        let k = power / (n as int);
        vstd::arithmetic::div_mod::lemma_fundamental_div_mod(base, d);
        vstd::arithmetic::div_mod::lemma_fundamental_div_mod(n as int, d);
        vstd::arithmetic::div_mod::lemma_fundamental_div_mod(power, n as int);
        assert(power % (n as int) == (xd * rest - nd * k) * d) by (nonlinear_arith)
            requires
                power == base * rest,
                base == d * xd,
                n == d * nd,
                power == n * k + power % (n as int),
        ;
        vstd::arithmetic::div_mod::lemma_mod_multiples_basic(xd * rest - nd * k, d);
        lemma_small_mod(1, d as nat);
    }
}

/// The entries that `rounds` rounds of mixing read: the last one to start
/// with, and in every round the one that the state selects.
pub open spec fn reads(table: Seq<nat>, rounds: nat, j: int) -> bool
    decreases rounds,
{
    if rounds == 0 {
        j == table.len() - 1
    } else {
        let before = (rounds - 1) as nat;
        reads(table, before, j) || j == index_of(mixing(table, before), table.len())
    }
}

/// Mixing sees of a table only the entries it reads: over two tables that
/// agree on them it comes to the same state.
pub proof fn lemma_mixing_reads(a: Seq<nat>, b: Seq<nat>, rounds: nat)
    requires
        a.len() == b.len(),
        a.len() >= 1,
        forall|j: int| 0 <= j < a.len() && #[trigger] reads(a, rounds, j) ==> a[j] == b[j],
    ensures
        mixing(a, rounds) == mixing(b, rounds),
    decreases rounds,
{
    if rounds == 0 {
        assert(reads(a, 0, a.len() - 1));
    } else {
        let before = (rounds - 1) as nat;
        assert forall|j: int| 0 <= j < a.len() && reads(a, before, j) implies a[j] == b[j] by {
            assert(reads(a, rounds, j));
        }
        lemma_mixing_reads(a, b, before);
        let j = index_of(mixing(a, before), a.len()) as int;
        lemma_mod_bound(be_value(mixing(a, before)) as int, a.len() as int);
        assert(reads(a, rounds, j));
    }
}

/// Equivalence, entry by entry: for two different primes `p` and `q`, the
/// privileged path with `(p, q)` and the non-privileged path with `p * q`
/// come to the same outcome wherever every entry that the mixing reads is
/// one on which the two paths agree.
pub proof fn lemma_paths_agree_where_read(
    msg: Seq<u8>,
    p: nat,
    q: nat,
    m: nat,
    l: nat,
    t: nat,
    u: nat,
)
    requires
        is_prime(p),
        is_prime(q),
        p != q,
        forall|j: int|
            0 <= j < m && #[trigger] reads(squaring_table(le_value(msg), p * q, m, t), l, j)
                ==> entry_agrees(le_value(msg), p, q, t, j as nat),
    ensures
        privileged_digest(msg, p, q, m, l, t, u) == non_privileged_digest(msg, p * q, m, l, t, u),
{
    let x = le_value(msg);
    let hard = squaring_table(x, p * q, m, t);
    let easy = trapdoor_table(x, p, q, m, t);
    assert(p * q >= 1) by (nonlinear_arith)
        requires
            p >= 2,
            q >= 2,
    ;
    if m >= 1 {
        assert forall|j: int| 0 <= j < m && reads(hard, l, j) implies hard[j] == easy[j] by {
            lemma_entries_agree(x, p, q, t, j as nat);
        }
        lemma_mixing_reads(hard, easy, l);
    }
}

/// Equivalence: for two different primes `p` and `q`, and a message below
/// their product that the trapdoor serves, the privileged path with `(p, q)`
/// and the non-privileged path with `p * q` come to the same outcome, for
/// every choice of the parameters.
pub proof fn lemma_paths_agree(msg: Seq<u8>, p: nat, q: nat, m: nat, l: nat, t: nat, u: nat)
    requires
        is_prime(p),
        is_prime(q),
        p != q,
        le_value(msg) < p * q,
        trapdoor_applies(le_value(msg), p, q),
    ensures
        privileged_digest(msg, p, q, m, l, t, u) == non_privileged_digest(msg, p * q, m, l, t, u),
{
    lemma_paths_agree_where_read(msg, p, q, m, l, t, u);
}

/// Equivalence, for a parameter record: `privileged` and `non_priviledged`
/// come to the same outcome on a matched pair of keys made of two different
/// primes.
pub proof fn lemma_outcomes_agree(msg: Seq<u8>, p: nat, q: nat, params: Params)
    requires
        is_prime(p),
        is_prime(q),
        p != q,
        le_value(msg) < p * q,
        trapdoor_applies(le_value(msg), p, q),
    ensures
        privileged_outcome(msg, p, q, params) == non_privileged_outcome(msg, p * q, params),
{
    lemma_paths_agree(
        msg,
        p,
        q,
        params.m as nat,
        params.l as nat,
        params.time_complexity as nat,
        params.hash_bytes_size as nat,
    );
}

/// With a totient that is no power of two, the trapdoor serves every
/// message, also one that shares a factor with the modulus, such as the
/// empty message: no power of two is a multiple of the totient.
pub proof fn lemma_trapdoor_serves_all(x: nat, p: nat, q: nat)
    requires
        p >= 2,
        q >= 2,
        !is_power_of_two(totient(p, q)),
    ensures
        trapdoor_applies(x, p, q),
{
    let phi = totient(p, q);
    assert(phi >= 1) by (nonlinear_arith)
        requires
            p >= 2,
            q >= 2,
            phi == (p - 1) * (q - 1),
    ;
    assert forall|k: nat| #[trigger] pow2(k) % phi != 0 by {
        if pow2(k) % phi == 0 {
            lemma_divisor_of_power_of_two(phi, k);
        }
    }
}

/// Equivalence for a message below both factors: for two different primes
/// `p` and `q`, a message whose number is below each of them, and is not
/// zero unless the totient is no power of two, gives the same outcome on
/// both paths.
pub proof fn lemma_message_below_factors(msg: Seq<u8>, p: nat, q: nat, params: Params)
    requires
        is_prime(p),
        is_prime(q),
        p != q,
        le_value(msg) < p,
        le_value(msg) < q,
        le_value(msg) >= 1 || !is_power_of_two(totient(p, q)),
    ensures
        privileged_outcome(msg, p, q, params) == non_privileged_outcome(msg, p * q, params),
{
    let x = le_value(msg);
    assert(x < p * q) by (nonlinear_arith)
        requires
            x < p,
            q >= 2,
    ;
    if x >= 1 {
        lemma_small_mod(x, p);
        lemma_small_mod(x, q);
        lemma_coprime_from_factors(p, q, x);
    } else {
        lemma_trapdoor_serves_all(x, p, q);
    }
    lemma_outcomes_agree(msg, p, q, params);
}

/// A number with the size of a factor of a modulus of `bit_size` bits, for
/// two bits or more, is at least `2 ^ (bit_size / 2 - 1)`.
pub proof fn lemma_factor_size_floor(factor: nat, bit_size: nat)
    requires
        bit_size >= 2,
        has_factor_size(factor, bit_size),
    ensures
        pow2((bit_size / 2 - 1) as nat) <= factor,
{
    let half = bit_size / 2;
    let other = (bit_size - half) as nat;
    if !has_bit_length(factor, half) {
        if half < other {
            vstd::arithmetic::power2::lemma_pow2_strictly_increases(
                (half - 1) as nat,
                (other - 1) as nat,
            );
        }
    }
}

/// Equivalence for keys of the shape that `generate_keys` returns: where
/// the factors are two different primes with half the bits of the modulus
/// each and a totient that is no power of two, every message of fewer bits
/// than a factor, the empty one too, gives the same outcome on both paths.
pub proof fn lemma_generated_keys_agree(
    msg: Seq<u8>,
    p: nat,
    q: nat,
    bit_size: nat,
    params: Params,
)
    requires
        is_prime(p),
        is_prime(q),
        p != q,
        has_factor_size(p, bit_size),
        has_factor_size(q, bit_size),
        8 * msg.len() < bit_size / 2,
        !is_power_of_two(totient(p, q)),
    ensures
        privileged_outcome(msg, p, q, params) == non_privileged_outcome(msg, p * q, params),
{
    let half = bit_size / 2;
    lemma_le_value_below(msg);
    lemma_factor_size_floor(p, bit_size);
    lemma_factor_size_floor(q, bit_size);
    if 8 * msg.len() < half - 1 {
        vstd::arithmetic::power2::lemma_pow2_strictly_increases(
            (8 * msg.len()) as nat,
            (half - 1) as nat,
        );
    }
    lemma_message_below_factors(msg, p, q, params);
}

/// For two different primes, the inverse of one modulo the other is the
/// power that Fermat's little theorem names.
pub proof fn lemma_fermat_inverse(a: nat, p: nat)
    requires
        is_prime(p),
        a % p != 0,
    ensures
        has_fermat_inverse(a, p),
{
    let m = p as int;
    let e = (p - 2) as nat;
    lemma_fermat_little(p, a);
    lemma_pow_adds(a as int, e, 1);
    lemma_pow1(a as int);
    lemma_mul_mod_noop_left(pow(a as int, e), a as int, m);
    lemma_pow_mod_bounds(a, e, p);
}

/// Correctness of the Chinese remainder theorem: for two different primes
/// `p` and `q` and a base without a factor in common with `p * q`, the value
/// is defined and is `c ^ d mod (p * q)`.
pub proof fn lemma_crt_pow_mod_correct(c: nat, d: nat, p: nat, q: nat)
    requires
        is_prime(p),
        is_prime(q),
        p != q,
        coprime(c, p * q),
    ensures
        crt_defined(p, q),
        crt_value(c, d, p, q) == pow(c as int, d) % ((p * q) as int),
{
    let pi = p as int;
    let qi = q as int;
    let ci = c as int;
    lemma_coprime_to_factors(p, q, c);
    lemma_primes_apart(q, p);
    lemma_fermat_inverse(q, p);

    let d_p = d % ((p - 1) as nat);
    let d_q = d % ((q - 1) as nat);
    lemma_fermat_little(p, c);
    lemma_fermat_little(q, c);
    lemma_pow_period(ci, (p - 1) as nat, pi, d);
    lemma_pow_period(ci, (q - 1) as nat, qi, d);

    let m_1 = pow(ci, d_p) % pi;
    let m_2 = pow(ci, d_q) % qi;
    let q_inv = fermat_inverse(q, p) as int;
    let diff = (m_1 + 2 * p - m_2) % pi;
    let h = (q_inv * diff) % pi;
    let s = m_2 + h * q;
    lemma_pow_mod_bounds(c, d_p, p);
    lemma_pow_mod_bounds(c, d_q, q);

    // Modulo q the sum is m_2.
    assert(s % qi == pow(ci, d) % qi) by {
        assert(s == qi * h + m_2) by (nonlinear_arith)
            requires
                s == m_2 + h * q,
                qi == q,
        ;
        lemma_mod_multiples_vanish(h, m_2, qi);
        lemma_mod_twice(pow(ci, d_q), qi);
    }

    // Modulo p the sum is m_1.
    assert(s % pi == pow(ci, d) % pi) by {
        lemma_mul_mod_noop_left(q_inv * diff, qi, pi);
        assert((q_inv * diff) * qi == (q_inv * qi) * diff) by (nonlinear_arith);
        lemma_mul_mod_noop_left(q_inv * qi, diff, pi);
        assert(1 * diff == diff);
        lemma_mod_twice(m_1 + 2 * p - m_2, pi);
        assert((h * qi) % pi == diff);
        lemma_add_mod_noop_right(m_2, h * qi, pi);
        lemma_add_mod_noop_right(m_2, m_1 + 2 * p - m_2, pi);
        lemma_mod_multiples_vanish(2, m_1, pi);
        assert(m_2 + (m_1 + 2 * p - m_2) == pi * 2 + m_1);
        lemma_mod_twice(pow(ci, d_p), pi);
    }
    lemma_congruent_mod_product(p, q, s, pow(ci, d));
    lemma_mod_bound(pow(ci, d), (p * q) as int);
}

/// Determinism of the privileged path: two runs on the same message, key
/// and parameters return the same.
pub proof fn lemma_privileged_deterministic(
    msg: Seq<u8>,
    p: nat,
    q: nat,
    params: Params,
    first: Result<Seq<u8>, DiodonError>,
    second: Result<Seq<u8>, DiodonError>,
)
    requires
        first == privileged_outcome(msg, p, q, params),
        second == privileged_outcome(msg, p, q, params),
    ensures
        first == second,
{
}

/// Determinism of the non-privileged path: two runs on the same message,
/// key and parameters, neither of which ran out of memory, return the same.
pub proof fn lemma_non_privileged_deterministic(
    msg: Seq<u8>,
    n: nat,
    params: Params,
    first: Result<Seq<u8>, DiodonError>,
    second: Result<Seq<u8>, DiodonError>,
)
    requires
        non_priviledged_returns(msg, n, params, first),
        non_priviledged_returns(msg, n, params, second),
        first != Err::<Seq<u8>, DiodonError>(DiodonError::OutOfMemory),
        second != Err::<Seq<u8>, DiodonError>(DiodonError::OutOfMemory),
    ensures
        first == second,
{
}

/// No power of two is a multiple of a number that has an odd factor of at
/// least three: with such a totient, no reduced exponent is zero.
pub proof fn lemma_odd_factor(phi: nat, r: nat, k: nat)
    requires
        r >= 3,
        r % 2 == 1,
        phi >= 1,
        phi % r == 0,
    ensures
        pow2(k) % phi != 0,
        pow2(k) % r != 0,
    decreases k,
{
    if k == 0 {
        lemma_pow2(0);
        assert(pow2(0) == 1) by {
            reveal(pow);
        }
        lemma_small_mod(1, r);
    } else {
        let half = pow2((k - 1) as nat);
        lemma_odd_factor(phi, r, (k - 1) as nat);
        vstd::arithmetic::power2::lemma_pow2_unfold(k);
        if pow2(k) % r == 0 {
            let c = (pow2(k) / r) as int;
            let a = (r / 2) as int;
            vstd::arithmetic::div_mod::lemma_fundamental_div_mod(pow2(k) as int, r as int);
            vstd::arithmetic::div_mod::lemma_fundamental_div_mod(r as int, 2);
            assert(half == (half - a * c) * r) by (nonlinear_arith)
                requires
                    2 * half == r * c,
                    r == 2 * a + 1,
            ;
            vstd::arithmetic::div_mod::lemma_mod_multiples_basic(half - a * c, r as int);
        }
    }
    if pow2(k) % phi == 0 {
        let c = (pow2(k) / phi) as int;
        let d = (phi / r) as int;
        vstd::arithmetic::div_mod::lemma_fundamental_div_mod(pow2(k) as int, phi as int);
        vstd::arithmetic::div_mod::lemma_fundamental_div_mod(phi as int, r as int);
        assert(pow2(k) == (d * c) * r) by (nonlinear_arith)
            requires
                pow2(k) == phi * c,
                phi == r * d,
        ;
        vstd::arithmetic::div_mod::lemma_mod_multiples_basic(d * c, r as int);
    }
}

/// With a totient that has an odd factor of at least three, the trapdoor
/// serves every message, also one that shares a factor with the modulus,
/// such as the empty message.
pub proof fn lemma_trapdoor_applies(x: nat, p: nat, q: nat, r: nat)
    requires
        r >= 3,
        r % 2 == 1,
        totient(p, q) >= 1,
        totient(p, q) % r == 0,
    ensures
        trapdoor_applies(x, p, q),
{
    assert forall|k: nat| #[trigger] pow2(k) % totient(p, q) != 0 by {
        lemma_odd_factor(totient(p, q), r, k);
    }
}

} // verus!
