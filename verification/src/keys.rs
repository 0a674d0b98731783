//! The key pair: a modulus for everybody, its two factors for the holder.

use vstd::prelude::*;
use rsa::traits::{PrivateKeyParts, PublicKeyParts};
use crate::encoding::{has_bit_length, is_power_of_two, le_value};
use crate::error::DiodonError;
use crate::natural::Natural;

verus! {

/// The public half: the modulus `N`.
pub struct PublicKey {
    rsa_n: Natural,
}

/// The private half: the factors `p` and `q` of the modulus.
#[derive(Debug)]
pub struct PrivateKey {
    rsa_p: Natural,
    rsa_q: Natural,
}

impl PublicKey {
    #[verifier::type_invariant]
    spec fn usable(self) -> bool {
        self.rsa_n@ >= 1
    }

    /// The modulus `N`.
    pub closed spec fn modulus(&self) -> nat {
        self.rsa_n@
    }

    /// Takes a modulus, however it was produced. Zero is no modulus.
    pub fn new(rsa_n: Natural) -> (r: Result<PublicKey, DiodonError>)
        ensures
            match r {
                Ok(key) => rsa_n@ >= 1 && key.modulus() == rsa_n@,
                Err(e) => e == DiodonError::ArithmeticPreconditionViolated && rsa_n@ == 0,
            },
    {
        if rsa_n.is_zero() {
            Err(DiodonError::ArithmeticPreconditionViolated)
        } else {
            Ok(PublicKey { rsa_n })
        }
    }

    /// The modulus `N`, which is at least one.
    pub fn n(&self) -> (rsa_n: &Natural)
        ensures
            rsa_n@ == self.modulus(),
            rsa_n@ >= 1,
    {
        proof {
            use_type_invariant(self);
        }
        &self.rsa_n
    }
}

impl PrivateKey {
    #[verifier::type_invariant]
    spec fn usable(self) -> bool {
        self.rsa_p@ >= 2 && self.rsa_q@ >= 2 && self.rsa_p@ != self.rsa_q@
    }

    /// The first factor.
    pub closed spec fn prime_p(&self) -> nat {
        self.rsa_p@
    }

    /// The second factor.
    pub closed spec fn prime_q(&self) -> nat {
        self.rsa_q@
    }

    /// Takes a factorisation, however it was produced. The factors have to
    /// be at least two and different; that they are prime is the caller's
    /// business.
    pub fn new(rsa_p: Natural, rsa_q: Natural) -> (r: Result<PrivateKey, DiodonError>)
        ensures
            match r {
                Ok(key) => {
                    &&& are_factors(rsa_p@, rsa_q@)
                    &&& key.prime_p() == rsa_p@
                    &&& key.prime_q() == rsa_q@
                },
                Err(e) => e == DiodonError::ArithmeticPreconditionViolated && !are_factors(
                    rsa_p@,
                    rsa_q@,
                ),
            },
    {
        if rsa_p.at_least_two() && rsa_q.at_least_two() && !rsa_p.same(&rsa_q) {
            Ok(PrivateKey { rsa_p, rsa_q })
        } else {
            Err(DiodonError::ArithmeticPreconditionViolated)
        }
    }

    /// The first factor, which is at least two and is not the second.
    pub fn p(&self) -> (rsa_p: &Natural)
        ensures
            rsa_p@ == self.prime_p(),
            are_factors(self.prime_p(), self.prime_q()),
    {
        proof {
            use_type_invariant(self);
        }
        &self.rsa_p
    }

    /// The second factor, which is at least two and is not the first.
    pub fn q(&self) -> (rsa_q: &Natural)
        ensures
            rsa_q@ == self.prime_q(),
            are_factors(self.prime_p(), self.prime_q()),
    {
        proof {
            use_type_invariant(self);
        }
        &self.rsa_q
    }

    /// The public key that belongs to this private key: `N = p * q`.
    pub fn public_key(&self) -> (key: PublicKey)
        ensures
            matched(self, &key),
    {
        proof {
            use_type_invariant(self);
            assert(self.rsa_p@ * self.rsa_q@ >= 1) by (nonlinear_arith)
                requires
                    self.rsa_p@ >= 2,
                    self.rsa_q@ >= 2,
            ;
        }
        PublicKey { rsa_n: self.rsa_p.mul(&self.rsa_q) }
    }
}

/// What the two factors of a modulus have to be, short of being prime: at
/// least two each, and different.
pub open spec fn are_factors(p: nat, q: nat) -> bool {
    p >= 2 && q >= 2 && p != q
}

/// Euler's totient of `p * q` for distinct primes `p` and `q`.
pub open spec fn totient(p: nat, q: nat) -> nat {
    ((p - 1) * (q - 1)) as nat
}

/// A private and a public key that hold the same modulus.
pub open spec fn matched(private_key: &PrivateKey, public_key: &PublicKey) -> bool {
    public_key.modulus() == private_key.prime_p() * private_key.prime_q()
}

/// The size of a factor of a modulus of `bit_size` bits: half the bits of
/// the modulus, or, where that number is odd, possibly one more.
pub open spec fn has_factor_size(factor: nat, bit_size: nat) -> bool {
    ||| has_bit_length(factor, bit_size / 2)
    ||| has_bit_length(factor, (bit_size - bit_size / 2) as nat)
}

/// What a freshly generated key has to look like to be taken: it names at
/// least two factors, the first two are at least two each and different,
/// each of them has half the bits of the modulus, their totient is no power
/// of two, their product is the modulus, and the modulus has exactly
/// `bit_size` bits.
pub open spec fn is_key_material(primes: Seq<Natural>, modulus: nat, bit_size: nat) -> bool {
    &&& primes.len() >= 2
    &&& are_factors(primes[0]@, primes[1]@)
    &&& has_factor_size(primes[0]@, bit_size)
    &&& has_factor_size(primes[1]@, bit_size)
    &&& !is_power_of_two(totient(primes[0]@, primes[1]@))
    &&& primes[0]@ * primes[1]@ == modulus
    &&& has_bit_length(modulus, bit_size)
}

/// Whether a number has the size of a factor of a modulus of `bit_size`
/// bits.
pub fn is_factor_size(factor: &Natural, bit_size: usize) -> (fits: bool)
    ensures
        fits == has_factor_size(factor@, bit_size as nat),
{
    let half: usize = bit_size / 2;
    factor.has_bits(half) || factor.has_bits(bit_size - half)
}

/// Makes the key pair out of generated material, or refuses the material.
pub fn assemble_keys(primes: &Vec<Natural>, modulus: Natural, bit_size: usize) -> (r: Result<
    (PrivateKey, PublicKey),
    DiodonError,
>)
    ensures
        match r {
            Ok((private_key, public_key)) => {
                &&& is_key_material(primes@, modulus@, bit_size as nat)
                &&& private_key.prime_p() == primes@[0]@
                &&& private_key.prime_q() == primes@[1]@
                &&& public_key.modulus() == modulus@
                &&& matched(&private_key, &public_key)
            },
            Err(e) => e == DiodonError::KeyGenFailed && !is_key_material(
                primes@,
                modulus@,
                bit_size as nat,
            ),
        },
{
    if primes.len() < 2 {
        return Err(DiodonError::KeyGenFailed);
    }
    let rsa_p = primes[0].clone();
    let rsa_q = primes[1].clone();
    if !rsa_p.at_least_two() || !rsa_q.at_least_two() || rsa_p.same(&rsa_q) {
        return Err(DiodonError::KeyGenFailed);
    }
    if !is_factor_size(&rsa_p, bit_size) || !is_factor_size(&rsa_q, bit_size) {
        return Err(DiodonError::KeyGenFailed);
    }
    let one = Natural::from_u64(1);
    if rsa_p.sub(&one).mul(&rsa_q.sub(&one)).is_power_of_two() {
        return Err(DiodonError::KeyGenFailed);
    }
    if !rsa_p.mul(&rsa_q).same(&modulus) || !modulus.has_bits(bit_size) {
        return Err(DiodonError::KeyGenFailed);
    }
    proof {
        assert(rsa_p@ * rsa_q@ >= 1) by (nonlinear_arith)
            requires
                rsa_p@ >= 2,
                rsa_q@ >= 2,
        ;
    }
    Ok((PrivateKey { rsa_p, rsa_q }, PublicKey { rsa_n: modulus }))
}

/// Generates an RSA-style key pair whose modulus has `bit_size` bits, from
/// the randomness of the calling thread. A size of zero bits is refused at
/// once as an invalid parameter. For any other size, whether the search
/// succeeds is not known beforehand; a key pair that is returned is matched,
/// its factors are different and have half the bits of the modulus each,
/// their totient is no power of two, and its modulus has exactly `bit_size`
/// bits.
pub fn generate_keys(bit_size: usize) -> (r: Result<(PrivateKey, PublicKey), DiodonError>)
    ensures
        bit_size == 0 ==> r == Err::<(PrivateKey, PublicKey), DiodonError>(
            DiodonError::InvalidParameters,
        ),
        match r {
            Ok((private_key, public_key)) => {
                &&& bit_size >= 1
                &&& matched(&private_key, &public_key)
                &&& are_factors(private_key.prime_p(), private_key.prime_q())
                &&& has_factor_size(private_key.prime_p(), bit_size as nat)
                &&& has_factor_size(private_key.prime_q(), bit_size as nat)
                &&& !is_power_of_two(totient(private_key.prime_p(), private_key.prime_q()))
                &&& has_bit_length(public_key.modulus(), bit_size as nat)
            },
            Err(e) => {
                ||| (e == DiodonError::InvalidParameters && bit_size == 0)
                ||| (e == DiodonError::KeyGenFailed && bit_size >= 1)
            },
        },
{
    if bit_size == 0 {
        return Err(DiodonError::InvalidParameters);
    }
    let key = match rsa_generate(bit_size) {
        Ok(key) => key,
        Err(_) => {
            return Err(DiodonError::KeyGenFailed);
        },
    };
    let factors = rsa_primes(&key);
    let mut primes: Vec<Natural> = Vec::new();
    let mut i: usize = 0;
    while i < factors.len()
        invariant
            i <= factors@.len(),
            primes@.len() == i,
        decreases factors@.len() - i,
    {
        primes.push(from_biguint_dig_to_biguint(&factors[i]));
        i += 1;
    }
    let modulus = from_biguint_dig_to_biguint(&rsa_modulus(&key));
    assemble_keys(&primes, modulus, bit_size)
}

/// Brings a number of the `rsa` crate over: it is written out as
/// little-endian bytes and read back in.
pub fn from_biguint_dig_to_biguint(rsa_biguint: &rsa::BigUint) -> (r: Natural)
    ensures
        r@ == le_value(dig_bytes_le(*rsa_biguint)),
{
    Natural::from_bytes_le(dig_to_bytes_le(rsa_biguint).as_slice())
}

/// The private key of the `rsa` crate, carried from its generator to the
/// functions that read it.
#[verifier::external_type_specification]
#[verifier::external_body]
pub struct ExRsaPrivateKey(rsa::RsaPrivateKey);

/// The number type of the `rsa` crate, carried from a key to
/// `from_biguint_dig_to_biguint`.
#[verifier::external_type_specification]
#[verifier::external_body]
pub struct ExRsaBigUint(rsa::BigUint);

/// The error of the `rsa` crate, which `generate_keys` turns into
/// `KeyGenFailed`.
#[verifier::external_type_specification]
#[verifier::external_body]
pub struct ExRsaError(rsa::Error);

/// The little-endian bytes that a number of the `rsa` crate holds.
pub uninterp spec fn dig_bytes_le(number: rsa::BigUint) -> Seq<u8>;

/// `BigUint::to_bytes_le` of `num_bigint_dig`, the number type of `rsa`.
///
/// Believed of it: the bytes depend on the number alone.
#[verifier::external_body]
fn dig_to_bytes_le(number: &rsa::BigUint) -> (bytes: Vec<u8>)
    ensures
        bytes@ == dig_bytes_le(*number),
{
    number.to_bytes_le()
}

/// `RsaPrivateKey::new` of `rsa`, on `rand::thread_rng()`.
///
/// Nothing is believed of the outcome: it depends on the random numbers
/// drawn. The thread's generator is seeded by the system on first use.
#[verifier::external_body]
fn rsa_generate(bit_size: usize) -> (r: Result<rsa::RsaPrivateKey, rsa::Error>)
{
    rsa::RsaPrivateKey::new(&mut rand::thread_rng(), bit_size)
}

/// `PrivateKeyParts::primes` of `rsa`, copied out of the key.
///
/// Nothing is believed of the factors: `assemble_keys` checks them.
#[verifier::external_body]
fn rsa_primes(key: &rsa::RsaPrivateKey) -> (primes: Vec<rsa::BigUint>)
{
    key.primes().to_vec()
}

/// `PublicKeyParts::n` of `rsa`, copied out of the key.
///
/// Nothing is believed of the modulus: `assemble_keys` checks it.
#[verifier::external_body]
fn rsa_modulus(key: &rsa::RsaPrivateKey) -> (modulus: rsa::BigUint)
{
    key.n().clone()
}

} // verus!
