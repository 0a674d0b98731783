//! Modular arithmetic for the two paths: repeated squaring, the table of
//! squarings, and exponentiation through the Chinese remainder theorem.

use vstd::prelude::*;
use vstd::arithmetic::div_mod::{lemma_fundamental_div_mod, lemma_mod_multiples_vanish};
use vstd::arithmetic::power::{lemma_square_is_pow2, pow};
use vstd::arithmetic::power2::{lemma2_to64, pow2};
use crate::error::DiodonError;
use crate::natural::Natural;

verus! {

/// `b ^ (2 ^ t) mod n`: the result of squaring `b` modulo `n`, `t` times
/// over.
pub open spec fn squaring_value(b: nat, t: nat, n: nat) -> nat {
    (pow(b as int, pow2(t)) % (n as int)) as nat
}

/// Entry `i` of the table that starts at `x`: each entry is the one before
/// it, squared `t` times over modulo `n`.
pub open spec fn table_entry(x: nat, t: nat, n: nat, i: nat) -> nat
    decreases i,
{
    if i == 0 {
        x
    } else {
        squaring_value(table_entry(x, t, n, (i - 1) as nat), t, n)
    }
}

/// The table of `m` entries that starts at `x`; a table is never empty, so
/// for `m == 0` it is the single entry `x`.
pub open spec fn is_table(table: Seq<Natural>, x: nat, m: nat, t: nat, n: nat) -> bool {
    &&& table.len() == (if m == 0 { 1 } else { m })
    &&& forall|i: int|
        0 <= i < table.len() ==> (#[trigger] table[i])@ == table_entry(x, t, n, i as nat)
}

/// Calculates `b ^ (2 ^ e) mod n`. One squaring is done as one product and
/// one reduction.
pub fn squaring(b: &Natural, e: usize, n: &Natural) -> (r: Natural)
    requires
        n@ >= 1,
    ensures
        r@ == squaring_value(b@, e as nat, n@),
        e == 1 ==> r@ == (b@ * b@) % n@,
        r@ < n@,
{
    if e == 1 {
        proof {
            lemma2_to64();
            lemma_square_is_pow2(b@ as int);
        }
        return b.mul(b).rem(n);
    }
    b.modpow(&Natural::power_of_two(e), n)
}

/// Fills a table: pushes `start_value` and then `memory_factor - 1` further
/// entries, each the squaring of the one before.
pub fn fill_blocks(
    table: Vec<Natural>,
    start_value: &Natural,
    memory_factor: usize,
    time_complexity: usize,
    modulus: &Natural,
) -> (v: Vec<Natural>)
    requires
        table@.len() == 0,
        modulus@ >= 1,
    ensures
        is_table(v@, start_value@, memory_factor as nat, time_complexity as nat, modulus@),
        v@[0]@ == start_value@,
        forall|i: int|
            1 <= i < v@.len() ==> (#[trigger] v@[i])@ == squaring_value(
                v@[i - 1]@,
                time_complexity as nat,
                modulus@,
            ),
{
    let mut v = table;
    let mut v_minus_1 = start_value.clone();
    v.push(v_minus_1.clone());
    let mut i: usize = 1;
    while i < memory_factor
        invariant
            1 <= i,
            i <= memory_factor || i == 1,
            modulus@ >= 1,
            v@.len() == i,
            v_minus_1@ == v@[i - 1]@,
            forall|k: int|
                0 <= k < i ==> (#[trigger] v@[k])@ == table_entry(
                    start_value@,
                    time_complexity as nat,
                    modulus@,
                    k as nat,
                ),
            forall|k: int|
                1 <= k < i ==> (#[trigger] v@[k])@ == squaring_value(
                    v@[k - 1]@,
                    time_complexity as nat,
                    modulus@,
                ),
        decreases memory_factor - i,
    {
        v_minus_1 = squaring(&v_minus_1, time_complexity, modulus);
        v.push(v_minus_1.clone());
        i += 1;
    }
    v
}

/// Reserves room for a table of `memory_factor` entries, where the
/// allocator gives it. The room is an empty table; room for no entry is
/// always had, since nothing is asked of the allocator for it.
pub fn reserve_blocks(memory_factor: usize) -> (room: Option<Vec<Natural>>)
    ensures
        room matches Some(table) ==> table@.len() == 0,
        memory_factor == 0 ==> room is Some,
{
    let mut table: Vec<Natural> = Vec::new();
    if memory_factor == 0 {
        return Some(table);
    }
    match table.try_reserve(memory_factor) {
        Ok(_) => Some(table),
        Err(_) => None,
    }
}

/// Builds the table of `memory_factor` entries that starts at `start_value`,
/// after reserving room for all of it. Fails only where the room cannot be
/// had.
pub fn memory_blocks(
    start_value: &Natural,
    memory_factor: usize,
    time_complexity: usize,
    modulus: &Natural,
) -> (r: Result<Vec<Natural>, DiodonError>)
    requires
        modulus@ >= 1,
    ensures
        match r {
            Ok(v) => {
                &&& is_table(
                    v@,
                    start_value@,
                    memory_factor as nat,
                    time_complexity as nat,
                    modulus@,
                )
                &&& v@[0]@ == start_value@
                &&& forall|i: int|
                    1 <= i < v@.len() ==> (#[trigger] v@[i])@ == squaring_value(
                        v@[i - 1]@,
                        time_complexity as nat,
                        modulus@,
                    )
            },
            Err(e) => e == DiodonError::OutOfMemory,
        },
{
    match reserve_blocks(memory_factor) {
        Some(room) => Ok(fill_blocks(room, start_value, memory_factor, time_complexity, modulus)),
        None => Err(DiodonError::OutOfMemory),
    }
}

/// `a ^ (modulus - 2) mod modulus`, which for a prime modulus that does not
/// divide `a` is the inverse of `a`.
pub open spec fn fermat_inverse(a: nat, modulus: nat) -> nat {
    (pow(a as int, (modulus - 2) as nat) % (modulus as int)) as nat
}

/// Whether `fermat_inverse` is defined and is an inverse: the modulus is at
/// least two, and the product with `a` leaves one.
pub open spec fn has_fermat_inverse(a: nat, modulus: nat) -> bool {
    modulus >= 2 && (fermat_inverse(a, modulus) * a) % modulus == 1
}

/// Calculates `p^-1 mod q` as `p ^ (q - 2) mod q`, and checks it.
pub fn inverse(p: &Natural, q: &Natural) -> (r: Result<Natural, DiodonError>)
    ensures
        match r {
            Ok(v) => has_fermat_inverse(p@, q@) && v@ == fermat_inverse(p@, q@),
            Err(e) => e == DiodonError::ArithmeticPreconditionViolated && !has_fermat_inverse(
                p@,
                q@,
            ),
        },
{
    if !q.at_least_two() {
        return Err(DiodonError::ArithmeticPreconditionViolated);
    }
    let two = Natural::from_u64(2);
    let candidate = p.modpow(&q.sub(&two), q);
    if candidate.mul(p).rem(q).is_one() {
        Ok(candidate)
    } else {
        Err(DiodonError::ArithmeticPreconditionViolated)
    }
}

/// The value that the Chinese remainder theorem assembles for
/// `c ^ d mod (p * q)`: the two powers modulo `p` and modulo `q`, with the
/// exponent reduced modulo `p - 1` and `q - 1`, are joined through the
/// inverse of `q` modulo `p`.
pub open spec fn crt_value(c: nat, d: nat, p: nat, q: nat) -> nat {
    let d_p = d % ((p - 1) as nat);
    let d_q = d % ((q - 1) as nat);
    let m_1 = pow(c as int, d_p) % (p as int);
    let m_2 = pow(c as int, d_q) % (q as int);
    let q_inv = fermat_inverse(q, p) as int;
    let h = (q_inv * ((m_1 + 2 * p - m_2) % (p as int))) % (p as int);
    ((m_2 + h * q) % ((p * q) as int)) as nat
}

/// Where `crt_value` is defined: both factors are at least two, and `q` has
/// its inverse modulo `p`.
pub open spec fn crt_defined(p: nat, q: nat) -> bool {
    q >= 2 && has_fermat_inverse(q, p)
}

/// Calculates `c ^ d mod (p * q)` from the factors `p` and `q`.
pub fn crt_pow_mod(c: &Natural, d: &Natural, p: &Natural, q: &Natural) -> (r: Result<
    Natural,
    DiodonError,
>)
    ensures
        match r {
            Ok(v) => crt_defined(p@, q@) && v@ == crt_value(c@, d@, p@, q@),
            Err(e) => e == DiodonError::ArithmeticPreconditionViolated && !crt_defined(p@, q@),
        },
{
    if !q.at_least_two() {
        return Err(DiodonError::ArithmeticPreconditionViolated);
    }
    let q_inv = match inverse(q, p) {
        Ok(v) => v,
        Err(e) => {
            return Err(e);
        },
    };
    let one = Natural::from_u64(1);
    let d_p = d.rem(&p.sub(&one));
    let d_q = d.rem(&q.sub(&one));

    let m_1 = c.modpow(&d_p, p);
    let m_2 = c.modpow(&d_q, q);
    let m_2_p = m_2.rem(p);
    let m_diff = m_1.add(p).sub(&m_2_p).rem(p);
    let h = q_inv.mul(&m_diff).rem(p);
    proof {
        let k = (m_2@ / p@) as int;
        lemma_fundamental_div_mod(m_2@ as int, p@ as int);
        assert(m_1@ + 2 * p@ - m_2@ == (p@ as int) * (1 - k) + (m_1@ + p@ - m_2_p@))
            by (nonlinear_arith)
            requires
                m_2@ as int == (p@ as int) * k + m_2_p@,
        ;
        lemma_mod_multiples_vanish(1 - k, m_1@ + p@ - m_2_p@, p@ as int);
        assert(p@ * q@ >= 1) by (nonlinear_arith)
            requires
                p@ >= 2,
                q@ >= 2,
        ;
    }
    Ok(m_2.add(&h.mul(q)).rem(&p.mul(q)))
}

} // verus!
