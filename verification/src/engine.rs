//! The digest engine.
//!
//! Both paths run the same mixing over a table of numbers. The
//! non-privileged path has the table in memory, built by sequential
//! squarings. The privileged path never builds it: with the factors of the
//! modulus it reduces the exponent of any entry and computes the entry on
//! demand.

use vstd::prelude::*;
use vstd::arithmetic::power::{lemma_pow_mod_noop, lemma_pow_multiplies, pow};
use vstd::arithmetic::div_mod::lemma_mod_bound;
use vstd::slice::{slice_subrange, slice_to_vec};
use crate::encoding::{be_bytes, be_value, be_value_mod, le_value};
use crate::error::DiodonError;
use crate::hash::{blake3_digest, blake3_hash, HASH_BYTES};
use crate::keys::{totient, PrivateKey, PublicKey};
use crate::natural::Natural;
use crate::params::Params;
use crate::util::{fill_blocks, reserve_blocks, table_entry};

verus! {

/// The table entry that a state selects: the state, read as a big-endian
/// number, modulo the number of entries.
pub open spec fn index_of(state: Seq<u8>, entries: nat) -> nat {
    be_value(state) % entries
}

/// What one round hashes: the state, followed by the big-endian bytes of the
/// selected entry.
pub open spec fn round_input(state: Seq<u8>, entry: nat) -> Seq<u8> {
    state + be_bytes(entry)
}

/// The state after `rounds` rounds of mixing over a table. It starts as the
/// bytes of the last entry; each round appends the entry that the state
/// selects and hashes the whole.
pub open spec fn mixing(table: Seq<nat>, rounds: nat) -> Seq<u8>
    decreases rounds,
{
    if rounds == 0 {
        be_bytes(table.last())
    } else {
        let state = mixing(table, (rounds - 1) as nat);
        blake3_digest(round_input(state, table[index_of(state, table.len()) as int]))
    }
}

/// The digest that a final state gives: its last `u` bytes. A state with
/// fewer bytes gives none.
pub open spec fn finish(state: Seq<u8>, u: nat) -> Result<Seq<u8>, DiodonError> {
    if u <= state.len() {
        Ok(state.subrange(state.len() - u, state.len() as int))
    } else {
        Err(DiodonError::InvalidParameters)
    }
}

/// The table of the non-privileged path: `m` entries from `x` on, each the
/// one before it squared `t` times over modulo `n`.
pub open spec fn squaring_table(x: nat, n: nat, m: nat, t: nat) -> Seq<nat> {
    Seq::new(m, |i: int| table_entry(x, t, n, i as nat))
}

/// The exponent that stands in for `2 ^ (j * t)` once it is reduced modulo
/// `phi`.
pub open spec fn trapdoor_exponent(j: nat, t: nat, phi: nat) -> nat {
    (pow(pow(2, j) % (phi as int), t) % (phi as int)) as nat
}

/// Entry `j` as the privileged path computes it: `x` to the reduced
/// exponent, modulo `p * q`.
pub open spec fn trapdoor_entry(x: nat, p: nat, q: nat, t: nat, j: nat) -> nat {
    (pow(x as int, trapdoor_exponent(j, t, totient(p, q))) % ((p * q) as int)) as nat
}

/// The table of the privileged path, which it never holds as a whole.
pub open spec fn trapdoor_table(x: nat, p: nat, q: nat, m: nat, t: nat) -> Seq<nat> {
    Seq::new(m, |j: int| trapdoor_entry(x, p, q, t, j as nat))
}

/// The outcome of the non-privileged path on a message, a modulus `n`, and
/// the parameters `m`, `l`, `t` and `u`.
pub open spec fn non_privileged_digest(
    msg: Seq<u8>,
    n: nat,
    m: nat,
    l: nat,
    t: nat,
    u: nat,
) -> Result<Seq<u8>, DiodonError> {
    if m == 0 || u > HASH_BYTES {
        Err(DiodonError::InvalidParameters)
    } else if n == 0 {
        Err(DiodonError::ArithmeticPreconditionViolated)
    } else {
        finish(mixing(squaring_table(le_value(msg), n, m, t), l), u)
    }
}

/// The outcome of the privileged path on a message, the factors `p` and `q`,
/// and the parameters `m`, `l`, `t` and `u`.
pub open spec fn privileged_digest(
    msg: Seq<u8>,
    p: nat,
    q: nat,
    m: nat,
    l: nat,
    t: nat,
    u: nat,
) -> Result<Seq<u8>, DiodonError> {
    if m == 0 || u > HASH_BYTES {
        Err(DiodonError::InvalidParameters)
    } else if p < 2 || q < 2 {
        Err(DiodonError::ArithmeticPreconditionViolated)
    } else {
        finish(mixing(trapdoor_table(le_value(msg), p, q, m, t), l), u)
    }
}

/// What a run of the non-privileged path may return: the outcome on its
/// arguments, or, when the arguments ask for a table and the table cannot be
/// had, `OutOfMemory`.
pub open spec fn non_privileged_returns(
    msg: Seq<u8>,
    n: nat,
    m: nat,
    l: nat,
    t: nat,
    u: nat,
    r: Result<Seq<u8>, DiodonError>,
) -> bool {
    ||| r == non_privileged_digest(msg, n, m, l, t, u)
    ||| (r == Err::<Seq<u8>, DiodonError>(DiodonError::OutOfMemory) && m >= 1 && u <= HASH_BYTES
        && n >= 1)
}

/// An outcome, with the digest as a sequence.
pub open spec fn outcome(r: Result<Vec<u8>, DiodonError>) -> Result<Seq<u8>, DiodonError> {
    match r {
        Ok(digest) => Ok(digest@),
        Err(e) => Err(e),
    }
}

/// The numbers in a table.
pub open spec fn values(table: Seq<Natural>) -> Seq<nat> {
    Seq::new(table.len(), |i: int| table[i]@)
}

/// The table entry that a state selects; it is always an entry of the table.
pub fn table_index(state: &[u8], entries: usize) -> (j: usize)
    requires
        entries >= 1,
    ensures
        j == index_of(state@, entries as nat),
        j < entries,
{
    be_value_mod(state, entries)
}

/// Appends the big-endian bytes of an entry to the state.
pub fn absorb(state: Vec<u8>, entry: &Natural) -> (input: Vec<u8>)
    ensures
        input@ == round_input(state@, entry@),
{
    let mut input = state;
    let mut bytes = entry.to_bytes_be();
    input.append(&mut bytes);
    input
}

/// The last `u` bytes of the final state.
pub fn digest_tail(state: &[u8], u: usize) -> (r: Result<Vec<u8>, DiodonError>)
    ensures
        outcome(r) == finish(state@, u as nat),
        r matches Ok(digest) ==> digest@.len() == u,
{
    let n = state.len();
    if u <= n {
        Ok(slice_to_vec(slice_subrange(state, n - u, n)))
    } else {
        Err(DiodonError::InvalidParameters)
    }
}

/// Runs `l` rounds of mixing over a table held in memory.
pub fn mix_table(table: &Vec<Natural>, l: usize) -> (state: Vec<u8>)
    requires
        table@.len() >= 1,
    ensures
        state@ == mixing(values(table@), l as nat),
        l >= 1 ==> state@.len() == HASH_BYTES,
{
    let m = table.len();
    let mut s_bytes = table[m - 1].to_bytes_be();
    let mut i: usize = 0;
    while i < l
        invariant
            i <= l,
            m == table@.len(),
            m >= 1,
            s_bytes@ == mixing(values(table@), i as nat),
            i >= 1 ==> s_bytes@.len() == HASH_BYTES,
        decreases l - i,
    {
        let j = table_index(s_bytes.as_slice(), m);
        let input = absorb(s_bytes, &table[j]);
        s_bytes = blake3_hash(input.as_slice());
        i += 1;
    }
    s_bytes
}

/// The non-privileged path in room that is already reserved: builds the
/// table of `m` entries from the message, mixes for `l` rounds, and returns
/// the last `hash_bytes_size` bytes of the state.
pub fn diodon_non_privileged_in(
    room: Vec<Natural>,
    cipher: &[u8],
    rsa_n: &Natural,
    m: usize,
    l: usize,
    time_complexity: usize,
    hash_bytes_size: usize,
) -> (r: Result<Vec<u8>, DiodonError>)
    requires
        room@.len() == 0,
    ensures
        outcome(r) == non_privileged_digest(
            cipher@,
            rsa_n@,
            m as nat,
            l as nat,
            time_complexity as nat,
            hash_bytes_size as nat,
        ),
        r matches Ok(digest) ==> digest@.len() == hash_bytes_size,
        m >= 1 && hash_bytes_size <= HASH_BYTES && rsa_n@ >= 1 && l >= 1 ==> r is Ok,
{
    if m == 0 || hash_bytes_size > HASH_BYTES {
        return Err(DiodonError::InvalidParameters);
    }
    if rsa_n.is_zero() {
        return Err(DiodonError::ArithmeticPreconditionViolated);
    }
    let x = Natural::from_bytes_le(cipher);
    let v = fill_blocks(room, &x, m, time_complexity, rsa_n);
    assert(values(v@) =~= squaring_table(x@, rsa_n@, m as nat, time_complexity as nat));
    let s_bytes = mix_table(&v, l);
    digest_tail(s_bytes.as_slice(), hash_bytes_size)
}

/// The non-privileged path: reserves room for the table of `m` entries,
/// builds it from the message, mixes for `l` rounds, and returns the last
/// `hash_bytes_size` bytes of the state. Arguments that cannot give a digest
/// are refused before any room is asked for.
pub fn diodon_non_privileged(
    cipher: &[u8],
    rsa_n: &Natural,
    m: usize,
    l: usize,
    time_complexity: usize,
    hash_bytes_size: usize,
) -> (r: Result<Vec<u8>, DiodonError>)
    ensures
        non_privileged_returns(
            cipher@,
            rsa_n@,
            m as nat,
            l as nat,
            time_complexity as nat,
            hash_bytes_size as nat,
            outcome(r),
        ),
        r matches Ok(digest) ==> digest@.len() == hash_bytes_size,
        m >= 1 && hash_bytes_size <= HASH_BYTES && rsa_n@ >= 1 && l >= 1 ==> r is Ok || r == Err::<
            Vec<u8>,
            DiodonError,
        >(DiodonError::OutOfMemory),
{
    if m == 0 || hash_bytes_size > HASH_BYTES {
        return Err(DiodonError::InvalidParameters);
    }
    if rsa_n.is_zero() {
        return Err(DiodonError::ArithmeticPreconditionViolated);
    }
    match reserve_blocks(m) {
        Some(room) => diodon_non_privileged_in(
            room,
            cipher,
            rsa_n,
            m,
            l,
            time_complexity,
            hash_bytes_size,
        ),
        None => Err(DiodonError::OutOfMemory),
    }
}

/// The exponent of the last table entry, reduced in one step, is the
/// reduced exponent of that entry.
pub proof fn lemma_trapdoor_exponent(j: nat, t: nat, phi: nat)
    requires
        phi >= 1,
    ensures
        trapdoor_exponent(j, t, phi) == pow(2, j * t) % (phi as int),
        0 <= trapdoor_exponent(j, t, phi) < phi,
{
    lemma_pow_mod_noop(pow(2, j), t, phi as int);
    lemma_pow_multiplies(2, j, t);
    lemma_mod_bound(pow(2, j * t), phi as int);
}

/// The privileged path: with the factors of the modulus, computes every
/// entry that the mixing asks for from the message itself, through an
/// exponent reduced modulo the totient.
pub fn diodon_privileged(
    cipher: &[u8],
    rsa_p: &Natural,
    rsa_q: &Natural,
    m: usize,
    l: usize,
    time_complexity: usize,
    hash_bytes_size: usize,
) -> (r: Result<Vec<u8>, DiodonError>)
    ensures
        outcome(r) == privileged_digest(
            cipher@,
            rsa_p@,
            rsa_q@,
            m as nat,
            l as nat,
            time_complexity as nat,
            hash_bytes_size as nat,
        ),
        r matches Ok(digest) ==> digest@.len() == hash_bytes_size,
        m >= 1 && hash_bytes_size <= HASH_BYTES && rsa_p@ >= 2 && rsa_q@ >= 2 && l >= 1 ==> r is Ok,
{
    if m == 0 || hash_bytes_size > HASH_BYTES {
        return Err(DiodonError::InvalidParameters);
    }
    if !rsa_p.at_least_two() || !rsa_q.at_least_two() {
        return Err(DiodonError::ArithmeticPreconditionViolated);
    }
    let x = Natural::from_bytes_le(cipher);
    let t = Natural::from_usize(time_complexity);
    let exponent = Natural::from_usize(m - 1).mul(&t);
    let one = Natural::from_u64(1);
    let phi_n = rsa_p.sub(&one).mul(&rsa_q.sub(&one));
    let n = rsa_p.mul(rsa_q);
    let two = Natural::from_u64(2);
    proof {
        assert(phi_n@ >= 1 && n@ >= 1) by (nonlinear_arith)
            requires
                rsa_p@ >= 2,
                rsa_q@ >= 2,
                phi_n@ == (rsa_p@ - 1) * (rsa_q@ - 1),
                n@ == rsa_p@ * rsa_q@,
        ;
        assert(phi_n@ == totient(rsa_p@, rsa_q@));
        lemma_trapdoor_exponent((m - 1) as nat, time_complexity as nat, phi_n@);
    }
    let e = two.modpow(&exponent, &phi_n);
    let mut s_bytes = x.modpow(&e, &n).to_bytes_be();
    let ghost table = trapdoor_table(x@, rsa_p@, rsa_q@, m as nat, time_complexity as nat);
    assert(table.last() == trapdoor_entry(
        x@,
        rsa_p@,
        rsa_q@,
        time_complexity as nat,
        (m - 1) as nat,
    ));
    let mut i: usize = 0;
    while i < l
        invariant
            i <= l,
            m >= 1,
            phi_n@ >= 1,
            n@ >= 1,
            two@ == 2,
            t@ == time_complexity,
            phi_n@ == totient(rsa_p@, rsa_q@),
            n@ == rsa_p@ * rsa_q@,
            table == trapdoor_table(x@, rsa_p@, rsa_q@, m as nat, time_complexity as nat),
            s_bytes@ == mixing(table, i as nat),
            i >= 1 ==> s_bytes@.len() == HASH_BYTES,
        decreases l - i,
    {
        let j = table_index(s_bytes.as_slice(), m);
        let e_j = two.modpow(&Natural::from_usize(j), &phi_n).modpow(&t, &phi_n);
        let x_ej = x.modpow(&e_j, &n);
        assert(x_ej@ == table[j as int]);
        let input = absorb(s_bytes, &x_ej);
        s_bytes = blake3_hash(input.as_slice());
        i += 1;
    }
    digest_tail(s_bytes.as_slice(), hash_bytes_size)
}

/// The outcome of `privileged` on a message, a private key's factors and a
/// parameter record.
pub open spec fn privileged_outcome(msg: Seq<u8>, p: nat, q: nat, params: Params) -> Result<
    Seq<u8>,
    DiodonError,
> {
    if !params.valid() {
        Err(DiodonError::InvalidParameters)
    } else {
        privileged_digest(
            msg,
            p,
            q,
            params.m as nat,
            params.l as nat,
            params.time_complexity as nat,
            params.hash_bytes_size as nat,
        )
    }
}

/// The outcome of `non_priviledged` on a message, a public key's modulus and
/// a parameter record.
pub open spec fn non_privileged_outcome(msg: Seq<u8>, n: nat, params: Params) -> Result<
    Seq<u8>,
    DiodonError,
> {
    if !params.valid() {
        Err(DiodonError::InvalidParameters)
    } else {
        non_privileged_digest(
            msg,
            n,
            params.m as nat,
            params.l as nat,
            params.time_complexity as nat,
            params.hash_bytes_size as nat,
        )
    }
}

/// What a run of `non_priviledged` may return: the outcome on its
/// arguments, or, when the parameter record is valid and the table cannot be
/// had, `OutOfMemory`.
pub open spec fn non_priviledged_returns(
    msg: Seq<u8>,
    n: nat,
    params: Params,
    r: Result<Seq<u8>, DiodonError>,
) -> bool {
    ||| r == non_privileged_outcome(msg, n, params)
    ||| (r == Err::<Seq<u8>, DiodonError>(DiodonError::OutOfMemory) && params.valid() && n >= 1)
}

/// The digest of a message for the holder of the private key. Fails without
/// starting on a parameter record that is not valid.
pub fn privileged(cipher: &[u8], private_key: PrivateKey, params: &Params) -> (r: Result<
    Vec<u8>,
    DiodonError,
>)
    ensures
        outcome(r) == privileged_outcome(
            cipher@,
            private_key.prime_p(),
            private_key.prime_q(),
            *params,
        ),
        r matches Ok(digest) ==> digest@.len() == params.hash_bytes_size,
        params.valid() && params.l >= 1 ==> r is Ok,
{
    if !params.is_valid() {
        return Err(DiodonError::InvalidParameters);
    }
    diodon_privileged(
        cipher,
        private_key.p(),
        private_key.q(),
        params.m,
        params.l,
        params.time_complexity,
        params.hash_bytes_size,
    )
}

/// The digest of a message for everybody else. Fails without starting on a
/// parameter record that is not valid, and with `OutOfMemory` where the
/// table cannot be had.
pub fn non_priviledged(cipher: &[u8], public_key: PublicKey, params: &Params) -> (r: Result<
    Vec<u8>,
    DiodonError,
>)
    ensures
        non_priviledged_returns(cipher@, public_key.modulus(), *params, outcome(r)),
        r matches Ok(digest) ==> digest@.len() == params.hash_bytes_size,
        params.valid() && params.l >= 1 ==> r is Ok || r == Err::<Vec<u8>, DiodonError>(
            DiodonError::OutOfMemory,
        ),
{
    if !params.is_valid() {
        return Err(DiodonError::InvalidParameters);
    }
    diodon_non_privileged(
        cipher,
        public_key.n(),
        params.m,
        params.l,
        params.time_complexity,
        params.hash_bytes_size,
    )
}

} // verus!
