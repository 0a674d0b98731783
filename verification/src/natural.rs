//! Natural numbers of any size.
//!
//! A `Natural` holds the shortest big-endian bytes of its value, which is
//! what the digest hashes, and views as a `nat`. The arithmetic itself is
//! done by `num_bigint`: each operation below hands bytes to it and takes
//! bytes back, and what is believed of it is written on the private
//! functions at the end of this file.

use vstd::prelude::*;
use vstd::arithmetic::power::{lemma_pow_positive, pow};
use vstd::arithmetic::power2::{lemma_pow2_adds, lemma_pow2_strictly_increases, pow2};
use vstd::arithmetic::div_mod::lemma_mod_bound;
use vstd::slice::slice_to_vec;
use num_bigint::BigUint;
use num_traits::One;
use crate::encoding::{
    be_bytes,
    be_of_le,
    be_of_u64,
    be_value,
    byte_width,
    has_bit_length,
    is_minimal,
    is_power_of_two,
    le_value,
    lemma_be_bytes_value,
    lemma_be_value_bounds,
    lemma_be_value_single,
    lemma_minimal_is_be_bytes,
    lemma_power_of_two_byte,
    lemma_power_of_two_bytes,
    minimal_be,
};

verus! {

/// A natural number, kept as its shortest big-endian bytes.
#[derive(Debug, PartialEq, Eq)]
pub struct Natural {
    bytes: Vec<u8>,
}

impl View for Natural {
    type V = nat;

    closed spec fn view(&self) -> nat {
        be_value(self.bytes@)
    }
}

impl Clone for Natural {
    fn clone(&self) -> (copy: Self)
        ensures
            copy@ == self@,
    {
        proof {
            use_type_invariant(self);
        }
        Natural { bytes: slice_to_vec(self.bytes.as_slice()) }
    }
}

impl Natural {
    #[verifier::type_invariant]
    spec fn shortest(self) -> bool {
        is_minimal(self.bytes@)
    }

    /// Takes bytes that `be_bytes` gave.
    fn from_minimal(bytes: Vec<u8>, Ghost(value): Ghost<nat>) -> (number: Natural)
        requires
            bytes@ == be_bytes(value),
        ensures
            number@ == value,
    {
        proof {
            lemma_be_bytes_value(value);
        }
        Natural { bytes }
    }

    /// The number that `bytes` spell, least significant byte first. An empty
    /// slice is zero.
    pub fn from_bytes_le(bytes: &[u8]) -> (number: Natural)
        ensures
            number@ == le_value(bytes@),
    {
        Natural::from_minimal(be_of_le(bytes), Ghost(le_value(bytes@)))
    }

    /// The number that `bytes` spell, most significant byte first. Leading
    /// zero bytes are allowed, and an empty slice is zero.
    pub fn from_bytes_be(bytes: &[u8]) -> (number: Natural)
        ensures
            number@ == be_value(bytes@),
    {
        Natural::from_minimal(minimal_be(bytes), Ghost(be_value(bytes@)))
    }

    /// The number `value`.
    pub fn from_u64(value: u64) -> (number: Natural)
        ensures
            number@ == value,
    {
        Natural::from_minimal(be_of_u64(value), Ghost(value as nat))
    }

    /// The number `value`.
    pub fn from_usize(value: usize) -> (number: Natural)
        ensures
            number@ == value,
    {
        Natural::from_u64(value as u64)
    }

    /// The shortest big-endian bytes of the number: no leading zero byte,
    /// except that zero is the single byte `0x00`.
    pub fn to_bytes_be(&self) -> (bytes: Vec<u8>)
        ensures
            bytes@ == be_bytes(self@),
    {
        proof {
            use_type_invariant(self);
            lemma_minimal_is_be_bytes(self.bytes@);
        }
        slice_to_vec(self.bytes.as_slice())
    }

    /// Whether the number is zero.
    pub fn is_zero(&self) -> (zero: bool)
        ensures
            zero == (self@ == 0),
    {
        proof {
            use_type_invariant(self);
            lemma_minimal_is_be_bytes(self.bytes@);
            if self.bytes@.len() == 1 {
                lemma_be_value_single(self.bytes@);
            }
        }
        self.bytes.len() == 1 && self.bytes[0] == 0
    }

    /// Whether the number is one.
    pub fn is_one(&self) -> (one: bool)
        ensures
            one == (self@ == 1),
    {
        proof {
            use_type_invariant(self);
            lemma_minimal_is_be_bytes(self.bytes@);
            if self.bytes@.len() == 1 {
                lemma_be_value_single(self.bytes@);
            }
        }
        self.bytes.len() == 1 && self.bytes[0] == 1
    }

    /// Whether the number is two or more.
    pub fn at_least_two(&self) -> (big: bool)
        ensures
            big == (self@ >= 2),
    {
        !self.is_zero() && !self.is_one()
    }

    /// Whether the number has exactly `bits` bits.
    pub fn has_bits(&self, bits: usize) -> (exact: bool)
        ensures
            exact == has_bit_length(self@, bits as nat),
    {
        if bits == 0 {
            return false;
        }
        if self.is_zero() {
            proof {
                vstd::arithmetic::power2::lemma_pow2_pos((bits - 1) as nat);
            }
            return false;
        }
        proof {
            use_type_invariant(self);
            if self.bytes@.len() == 1 {
                lemma_be_value_single(self.bytes@);
            }
        }
        let len = self.bytes.len();
        let width = byte_width(self.bytes[0]);
        proof {
            let lead = self.bytes@[0] as int;
            let below = (8 * (len - 1)) as nat;
            let scale = pow2(below) as int;
            let mine = (below + width) as nat;
            lemma_be_value_bounds(self.bytes@);
            lemma_pow2_adds(below, (width - 1) as nat);
            lemma_pow2_adds(below, width as nat);
            assert(pow2((mine - 1) as nat) <= self@ && self@ < pow2(mine)) by (nonlinear_arith)
                requires
                    pow2((mine - 1) as nat) == scale * pow2((width - 1) as nat),
                    pow2(mine) == scale * pow2(width as nat),
                    pow2((width - 1) as nat) <= lead,
                    lead + 1 <= pow2(width as nat),
                    lead * scale <= self@,
                    self@ < (lead + 1) * scale,
                    scale >= 0,
            ;
            if bits < mine {
                if bits < mine - 1 {
                    lemma_pow2_strictly_increases(bits as nat, (mine - 1) as nat);
                }
            } else if bits > mine {
                if bits - 1 > mine {
                    lemma_pow2_strictly_increases(mine, (bits - 1) as nat);
                }
            }
        }
        (bits - 1) / 8 == len - 1 && (bits - 1) % 8 == width - 1
    }

    /// Whether the number is a power of two.
    pub fn is_power_of_two(&self) -> (single: bool)
        ensures
            single == is_power_of_two(self@),
    {
        proof {
            use_type_invariant(self);
            lemma_power_of_two_bytes(self.bytes@);
            lemma_power_of_two_byte(self.bytes@[0]);
        }
        let len = self.bytes.len();
        let mut i: usize = 1;
        while i < len
            invariant
                1 <= i <= len,
                len == self.bytes@.len(),
                forall|k: int| 1 <= k < i ==> self.bytes@[k] == 0,
                is_power_of_two(self@) ==> forall|k: int|
                    1 <= k < self.bytes@.len() ==> self.bytes@[k] == 0,
            decreases len - i,
        {
            if self.bytes[i] != 0 {
                return false;
            }
            i += 1;
        }
        let lead = self.bytes[0];
        lead == 1 || lead == 2 || lead == 4 || lead == 8 || lead == 16 || lead == 32 || lead == 64
            || lead == 128
    }

    /// Whether two numbers are the same number.
    pub fn same(&self, other: &Natural) -> (equal: bool)
        ensures
            equal == (self@ == other@),
    {
        proof {
            use_type_invariant(self);
            use_type_invariant(other);
            lemma_minimal_is_be_bytes(self.bytes@);
            lemma_minimal_is_be_bytes(other.bytes@);
        }
        let n = self.bytes.len();
        if other.bytes.len() != n {
            return false;
        }
        let mut i: usize = 0;
        while i < n
            invariant
                i <= n,
                n == self.bytes@.len(),
                n == other.bytes@.len(),
                self.bytes@ == be_bytes(self@),
                other.bytes@ == be_bytes(other@),
                forall|k: int| 0 <= k < i ==> self.bytes@[k] == other.bytes@[k],
            decreases n - i,
        {
            if self.bytes[i] != other.bytes[i] {
                return false;
            }
            i += 1;
        }
        assert(self.bytes@ =~= other.bytes@);
        true
    }

    /// `self * other`.
    pub fn mul(&self, other: &Natural) -> (product: Natural)
        ensures
            product@ == self@ * other@,
    {
        let bytes = mul_bytes(self.bytes.as_slice(), other.bytes.as_slice());
        Natural::from_minimal(bytes, Ghost(self@ * other@))
    }

    /// `self + other`.
    pub fn add(&self, other: &Natural) -> (sum: Natural)
        ensures
            sum@ == self@ + other@,
    {
        let bytes = add_bytes(self.bytes.as_slice(), other.bytes.as_slice());
        Natural::from_minimal(bytes, Ghost(self@ + other@))
    }

    /// `self - other`, for `other` no larger than `self`.
    pub fn sub(&self, other: &Natural) -> (difference: Natural)
        requires
            other@ <= self@,
        ensures
            difference@ == self@ - other@,
    {
        let bytes = sub_bytes(self.bytes.as_slice(), other.bytes.as_slice());
        Natural::from_minimal(bytes, Ghost((self@ - other@) as nat))
    }

    /// `self % modulus`, for a modulus that is not zero.
    pub fn rem(&self, modulus: &Natural) -> (residue: Natural)
        requires
            modulus@ > 0,
        ensures
            residue@ == self@ % modulus@,
            residue@ < modulus@,
    {
        proof {
            lemma_mod_bound(self@ as int, modulus@ as int);
        }
        let bytes = rem_bytes(self.bytes.as_slice(), modulus.bytes.as_slice());
        Natural::from_minimal(bytes, Ghost(self@ % modulus@))
    }

    /// `self ^ exponent % modulus`, for a modulus that is not zero. The
    /// power with exponent zero is one, also for base zero.
    pub fn modpow(&self, exponent: &Natural, modulus: &Natural) -> (power: Natural)
        requires
            modulus@ > 0,
        ensures
            power@ == pow(self@ as int, exponent@) % (modulus@ as int),
            power@ < modulus@,
    {
        proof {
            if self@ > 0 {
                lemma_pow_positive(self@ as int, exponent@);
            } else {
                lemma_pow_of_zero(exponent@);
            }
            lemma_mod_bound(pow(self@ as int, exponent@), modulus@ as int);
        }
        let bytes = modpow_bytes(
            self.bytes.as_slice(),
            exponent.bytes.as_slice(),
            modulus.bytes.as_slice(),
        );
        Natural::from_minimal(
            bytes,
            Ghost((pow(self@ as int, exponent@) % (modulus@ as int)) as nat),
        )
    }

    /// `2 ^ exponent`.
    pub fn power_of_two(exponent: usize) -> (power: Natural)
        ensures
            power@ == pow2(exponent as nat),
    {
        Natural::from_minimal(shl_one_bytes(exponent), Ghost(pow2(exponent as nat)))
    }
}

/// A power of zero is zero or one.
pub proof fn lemma_pow_of_zero(exponent: nat)
    ensures
        0 <= pow(0, exponent) <= 1,
{
    reveal(pow);
    if exponent > 0 {
        assert(pow(0, exponent) == 0 * pow(0, (exponent - 1) as nat));
    }
}

/// `BigUint`'s product of two numbers, each given and returned as
/// big-endian bytes.
///
/// Believed of `num_bigint`: `BigUint::from_bytes_be` reads any byte string,
/// also an empty one or one with leading zeros, as the big-endian number it
/// spells; `*` is the exact product; `BigUint::to_bytes_be` writes the
/// shortest big-endian bytes, and `[0]` for zero.
#[verifier::external_body]
fn mul_bytes(a: &[u8], b: &[u8]) -> (out: Vec<u8>)
    ensures
        out@ == be_bytes(be_value(a@) * be_value(b@)),
{
    (BigUint::from_bytes_be(a) * BigUint::from_bytes_be(b)).to_bytes_be()
}

/// `BigUint`'s sum of two numbers, each given and returned as big-endian
/// bytes (read and written as for `mul_bytes`).
///
/// Believed of `num_bigint`: `+` is the exact sum.
#[verifier::external_body]
fn add_bytes(a: &[u8], b: &[u8]) -> (out: Vec<u8>)
    ensures
        out@ == be_bytes(be_value(a@) + be_value(b@)),
{
    (BigUint::from_bytes_be(a) + BigUint::from_bytes_be(b)).to_bytes_be()
}

/// `BigUint`'s difference of two numbers, each given and returned as
/// big-endian bytes (read and written as for `mul_bytes`).
///
/// Believed of `num_bigint`: `-` is the exact difference where the
/// subtrahend is no larger than the minuend, and panics otherwise.
#[verifier::external_body]
fn sub_bytes(a: &[u8], b: &[u8]) -> (out: Vec<u8>)
    requires
        be_value(b@) <= be_value(a@),
    ensures
        out@ == be_bytes((be_value(a@) - be_value(b@)) as nat),
{
    (BigUint::from_bytes_be(a) - BigUint::from_bytes_be(b)).to_bytes_be()
}

/// `BigUint`'s remainder, on numbers given and returned as big-endian bytes
/// (read and written as for `mul_bytes`).
///
/// Believed of `num_bigint`: `%` is the remainder of the division, between
/// zero and the divisor, and panics for a divisor of zero.
#[verifier::external_body]
fn rem_bytes(a: &[u8], modulus: &[u8]) -> (out: Vec<u8>)
    requires
        be_value(modulus@) > 0,
    ensures
        out@ == be_bytes(be_value(a@) % be_value(modulus@)),
{
    (BigUint::from_bytes_be(a) % BigUint::from_bytes_be(modulus)).to_bytes_be()
}

/// `BigUint::modpow`, on numbers given and returned as big-endian bytes
/// (read and written as for `mul_bytes`).
///
/// Believed of `num_bigint`: `modpow` returns `(base ^ exponent) % modulus`,
/// with `base ^ 0` being one for every base, and panics for a modulus of
/// zero.
#[verifier::external_body]
fn modpow_bytes(base: &[u8], exponent: &[u8], modulus: &[u8]) -> (out: Vec<u8>)
    requires
        be_value(modulus@) > 0,
    ensures
        out@ == be_bytes(
            (pow(be_value(base@) as int, be_value(exponent@)) % (be_value(modulus@) as int)) as nat,
        ),
{
    BigUint::from_bytes_be(base).modpow(
        &BigUint::from_bytes_be(exponent),
        &BigUint::from_bytes_be(modulus),
    ).to_bytes_be()
}

/// `BigUint`'s one, shifted left, returned as big-endian bytes (written as
/// for `mul_bytes`).
///
/// Believed of `num_bigint` and `num_traits`: `BigUint::one()` is the number
/// one, and `<<` by `bits` multiplies by two `bits` times.
#[verifier::external_body]
fn shl_one_bytes(bits: usize) -> (out: Vec<u8>)
    ensures
        out@ == be_bytes(pow2(bits as nat)),
{
    (BigUint::one() << bits).to_bytes_be()
}

} // verus!
