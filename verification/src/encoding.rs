//! Byte encodings of natural numbers.
//!
//! A message is read as a little-endian number; table entries are written
//! big-endian in the fewest bytes, with a single zero byte for the number
//! zero. Both paths of the digest lean on these two encodings being exactly
//! the same, so they are defined once, here, as functions on sequences.

use vstd::prelude::*;
use vstd::arithmetic::div_mod::{
    lemma_add_mod_noop,
    lemma_fundamental_div_mod,
    lemma_mul_mod_noop_left,
    lemma_small_mod,
};
use vstd::arithmetic::power2::{
    lemma2_to64,
    lemma_pow2_adds,
    lemma_pow2_pos,
    lemma_pow2_strictly_increases,
    pow2,
};
use vstd::slice::{slice_subrange, slice_to_vec};

verus! {

/// The number whose base-256 digits are `bytes`, least significant first.
pub open spec fn le_value(bytes: Seq<u8>) -> nat
    decreases bytes.len(),
{
    if bytes.len() == 0 {
        0
    } else {
        bytes[0] as nat + 256 * le_value(bytes.drop_first())
    }
}

/// The number whose base-256 digits are `bytes`, most significant first.
pub open spec fn be_value(bytes: Seq<u8>) -> nat
    decreases bytes.len(),
{
    if bytes.len() == 0 {
        0
    } else {
        256 * be_value(bytes.drop_last()) + bytes.last() as nat
    }
}

/// The shortest big-endian encoding of `value`; zero is one zero byte.
pub open spec fn be_bytes(value: nat) -> Seq<u8>
    decreases value,
{
    if value < 256 {
        seq![value as u8]
    } else {
        be_bytes(value / 256).push((value % 256) as u8)
    }
}

/// A big-endian encoding with no byte to spare: not empty, and without a
/// leading zero unless it is the single byte of the number zero.
pub open spec fn is_minimal(bytes: Seq<u8>) -> bool {
    bytes.len() >= 1 && (bytes.len() == 1 || bytes[0] != 0)
}

/// A number of exactly `bits` bits: below `2 ^ bits`, and not below
/// `2 ^ (bits - 1)`. Zero has no number of bits.
pub open spec fn has_bit_length(value: nat, bits: nat) -> bool {
    bits >= 1 && pow2((bits - 1) as nat) <= value < pow2(bits)
}

/// A power of two: one, two, four and so on.
pub open spec fn is_power_of_two(value: nat) -> bool {
    exists|k: nat| value == pow2(k)
}

/// An encoding in which every byte after the first is zero.
pub open spec fn is_lead_only(bytes: Seq<u8>) -> bool {
    forall|i: int| 1 <= i < bytes.len() ==> bytes[i] == 0
}

/// A one-byte encoding stands for its byte.
pub proof fn lemma_be_value_single(bytes: Seq<u8>)
    requires
        bytes.len() == 1,
    ensures
        be_value(bytes) == bytes[0],
{
    assert(bytes.drop_last() =~= Seq::<u8>::empty());
    assert(be_value(bytes.drop_last()) == 0);
}

/// Appending a digit multiplies by the base and adds the digit.
pub proof fn lemma_be_value_push(bytes: Seq<u8>, digit: u8)
    ensures
        be_value(bytes.push(digit)) == 256 * be_value(bytes) + digit,
{
    assert(bytes.push(digit).drop_last() =~= bytes);
}

/// `be_bytes` is a minimal encoding of its argument.
pub proof fn lemma_be_bytes_value(value: nat)
    ensures
        be_value(be_bytes(value)) == value,
        is_minimal(be_bytes(value)),
    decreases value,
{
    if value < 256 {
        lemma_be_value_single(seq![value as u8]);
    } else {
        let high = be_bytes(value / 256);
        lemma_be_bytes_value(value / 256);
        lemma_be_value_push(high, (value % 256) as u8);
        lemma_fundamental_div_mod(value as int, 256);
        if high.len() == 1 {
            lemma_be_value_single(high);
        }
        assert(be_bytes(value)[0] == high[0]);
    }
}

/// An encoding that starts with a non-zero byte stands for a positive number.
pub proof fn lemma_be_value_leading(bytes: Seq<u8>)
    requires
        bytes.len() >= 1,
        bytes[0] != 0,
    ensures
        be_value(bytes) >= 1,
    decreases bytes.len(),
{
    if bytes.len() == 1 {
        lemma_be_value_single(bytes);
    } else {
        lemma_be_value_leading(bytes.drop_last());
    }
}

/// A minimal encoding is the one that `be_bytes` gives for its value.
pub proof fn lemma_minimal_is_be_bytes(bytes: Seq<u8>)
    requires
        is_minimal(bytes),
    ensures
        be_bytes(be_value(bytes)) == bytes,
    decreases bytes.len(),
{
    if bytes.len() == 1 {
        lemma_be_value_single(bytes);
        assert(seq![bytes[0]] =~= bytes);
    } else {
        let high = bytes.drop_last();
        lemma_be_value_leading(high);
        lemma_minimal_is_be_bytes(high);
        let value = be_value(bytes);
        assert(value == 256 * be_value(high) + bytes.last() as nat);
        assert(value / 256 == be_value(high) && value % 256 == bytes.last() as nat) by {
            lemma_fundamental_div_mod(value as int, 256);
        }
        assert(high.push(bytes.last()) =~= bytes);
    }
}

/// A leading zero byte does not change the number.
pub proof fn lemma_be_value_skip_zero(bytes: Seq<u8>)
    requires
        bytes.len() >= 1,
        bytes[0] == 0,
    ensures
        be_value(bytes) == be_value(bytes.drop_first()),
    decreases bytes.len(),
{
    if bytes.len() == 1 {
        lemma_be_value_single(bytes);
        assert(bytes.drop_first() =~= Seq::<u8>::empty());
    } else {
        lemma_be_value_skip_zero(bytes.drop_last());
        assert(bytes.drop_first().drop_last() =~= bytes.drop_last().drop_first());
    }
}

/// The leading byte places the number: with `len` bytes and the leading
/// byte `lead`, it is at least `lead * 256 ^ (len - 1)` and below
/// `(lead + 1) * 256 ^ (len - 1)`.
pub proof fn lemma_be_value_bounds(bytes: Seq<u8>)
    requires
        bytes.len() >= 1,
    ensures
        bytes[0] * pow2((8 * (bytes.len() - 1)) as nat) <= be_value(bytes),
        be_value(bytes) < (bytes[0] + 1) * pow2((8 * (bytes.len() - 1)) as nat),
    decreases bytes.len(),
{
    lemma2_to64();
    if bytes.len() == 1 {
        lemma_be_value_single(bytes);
    } else {
        let high = bytes.drop_last();
        lemma_be_value_bounds(high);
        let lead = bytes[0] as int;
        let last = bytes.last() as int;
        let unit = pow2((8 * (high.len() - 1)) as nat) as int;
        let scale = pow2((8 * (bytes.len() - 1)) as nat) as int;
        let v = be_value(high) as int;
        lemma_pow2_adds(8, (8 * (high.len() - 1)) as nat);
        assert(scale == 256 * unit);
        assert(lead * scale <= 256 * v + last && 256 * v + last < (lead + 1) * scale)
            by (nonlinear_arith)
            requires
                scale == 256 * unit,
                lead * unit <= v,
                v < (lead + 1) * unit,
                0 <= last < 256,
        ;
    }
}

/// The bytes after the first are all zero exactly where the number is the
/// leading byte times `256 ^ (len - 1)`.
pub proof fn lemma_lead_only_value(bytes: Seq<u8>)
    requires
        bytes.len() >= 1,
    ensures
        is_lead_only(bytes) <==> be_value(bytes) == bytes[0] * pow2(
            (8 * (bytes.len() - 1)) as nat,
        ),
    decreases bytes.len(),
{
    lemma2_to64();
    if bytes.len() == 1 {
        lemma_be_value_single(bytes);
        assert(bytes[0] * pow2(0) == bytes[0]) by (nonlinear_arith)
            requires
                pow2(0) == 1,
        ;
    } else {
        let high = bytes.drop_last();
        lemma_lead_only_value(high);
        lemma_be_value_bounds(high);
        let lead = bytes[0] as int;
        let last = bytes.last() as int;
        let unit = pow2((8 * (high.len() - 1)) as nat) as int;
        let scale = pow2((8 * (bytes.len() - 1)) as nat) as int;
        let v = be_value(high) as int;
        lemma_pow2_adds(8, (8 * (high.len() - 1)) as nat);
        assert(high[0] == bytes[0]);
        assert(scale == 256 * unit);
        assert(lead * scale == 256 * (lead * unit)) by (nonlinear_arith)
            requires
                scale == 256 * unit,
        ;
        if is_lead_only(bytes) {
            assert(bytes[bytes.len() - 1] == 0);
            assert forall|i: int| 1 <= i < high.len() implies high[i] == 0 by {
                assert(high[i] == bytes[i]);
            }
            assert(is_lead_only(high));
        }
        if be_value(bytes) == lead * scale {
            assert(is_lead_only(high));
            assert forall|i: int| 1 <= i < bytes.len() implies bytes[i] == 0 by {
                if i < high.len() {
                    assert(high[i] == bytes[i]);
                }
            }
        }
    }
}

/// A byte is a power of two exactly where it is one of the eight bytes
/// with a single bit.
pub proof fn lemma_power_of_two_byte(byte: u8)
    ensures
        is_power_of_two(byte as nat) <==> (byte == 1 || byte == 2 || byte == 4 || byte == 8 || byte
            == 16 || byte == 32 || byte == 64 || byte == 128),
{
    lemma2_to64();
    if byte == 1 {
        assert(byte as nat == pow2(0));
    } else if byte == 2 {
        assert(byte as nat == pow2(1));
    } else if byte == 4 {
        assert(byte as nat == pow2(2));
    } else if byte == 8 {
        assert(byte as nat == pow2(3));
    } else if byte == 16 {
        assert(byte as nat == pow2(4));
    } else if byte == 32 {
        assert(byte as nat == pow2(5));
    } else if byte == 64 {
        assert(byte as nat == pow2(6));
    } else if byte == 128 {
        assert(byte as nat == pow2(7));
    } else if is_power_of_two(byte as nat) {
        let k = choose|k: nat| byte as nat == pow2(k);
        if k >= 8 {
            if k > 8 {
                lemma_pow2_strictly_increases(8, k);
            }
        }
    }
}

/// A number is a power of two exactly where the leading byte of its
/// shortest encoding is one and every other byte is zero.
pub proof fn lemma_power_of_two_bytes(bytes: Seq<u8>)
    requires
        is_minimal(bytes),
    ensures
        is_power_of_two(be_value(bytes)) <==> (is_lead_only(bytes) && is_power_of_two(
            bytes[0] as nat,
        )),
{
    let below = (8 * (bytes.len() - 1)) as nat;
    let scale = pow2(below) as int;
    let lead = bytes[0] as int;
    let v = be_value(bytes) as int;
    lemma_be_value_bounds(bytes);
    lemma_lead_only_value(bytes);
    lemma_pow2_pos(below);
    if is_lead_only(bytes) && is_power_of_two(bytes[0] as nat) {
        let j = choose|j: nat| bytes[0] as nat == pow2(j);
        lemma_pow2_adds(below, j);
        assert(v == pow2(below + j)) by (nonlinear_arith)
            requires
                v == lead * scale,
                lead == pow2(j),
                pow2(below + j) == scale * pow2(j),
        ;
    }
    if is_power_of_two(be_value(bytes)) {
        let e = choose|e: nat| be_value(bytes) == pow2(e);
        lemma_pow2_pos(e);
        if bytes.len() == 1 {
            lemma_be_value_single(bytes);
        }
        assert(lead >= 1);
        assert(v >= scale) by (nonlinear_arith)
            requires
                lead * scale <= v,
                lead >= 1,
                scale >= 1,
        ;
        if e < below {
            lemma_pow2_strictly_increases(e, below);
        }
        let j = (e - below) as nat;
        lemma_pow2_adds(below, j);
        assert(lead == pow2(j)) by (nonlinear_arith)
            requires
                lead * scale <= v,
                v < (lead + 1) * scale,
                v == scale * pow2(j),
                scale >= 1,
        ;
        assert(v == lead * scale) by (nonlinear_arith)
            requires
                v == scale * pow2(j),
                lead == pow2(j),
        ;
        assert(bytes[0] as nat == pow2(j));
    }
}

/// A little-endian number of `len` bytes is below `256 ^ len`.
pub proof fn lemma_le_value_below(bytes: Seq<u8>)
    ensures
        le_value(bytes) < pow2((8 * bytes.len()) as nat),
    decreases bytes.len(),
{
    lemma2_to64();
    if bytes.len() > 0 {
        let rest = bytes.drop_first();
        lemma_le_value_below(rest);
        lemma_pow2_adds(8, (8 * rest.len()) as nat);
    }
}

/// The number of bits of a byte that is not zero.
pub fn byte_width(byte: u8) -> (width: usize)
    requires
        byte >= 1,
    ensures
        has_bit_length(byte as nat, width as nat),
        width <= 8,
{
    proof {
        lemma2_to64();
    }
    if byte >= 128 {
        8
    } else if byte >= 64 {
        7
    } else if byte >= 32 {
        6
    } else if byte >= 16 {
        5
    } else if byte >= 8 {
        4
    } else if byte >= 4 {
        3
    } else if byte >= 2 {
        2
    } else {
        1
    }
}

/// The big-endian bytes of a machine integer, in the fewest bytes.
pub fn be_of_u64(value: u64) -> (out: Vec<u8>)
    ensures
        out@ == be_bytes(value as nat),
    decreases value,
{
    if value < 256 {
        let mut out: Vec<u8> = Vec::new();
        out.push(value as u8);
        assert(out@ =~= seq![value as u8]);
        out
    } else {
        let mut out = be_of_u64(value / 256);
        out.push((value % 256) as u8);
        out
    }
}

/// Drops the leading zero bytes of a big-endian encoding.
pub fn minimal_be(bytes: &[u8]) -> (out: Vec<u8>)
    ensures
        out@ == be_bytes(be_value(bytes@)),
{
    let n = bytes.len();
    let mut k: usize = 0;
    assert(bytes@.subrange(0, n as int) =~= bytes@);
    while k < n && bytes[k] == 0
        invariant
            k <= n,
            n == bytes@.len(),
            be_value(bytes@) == be_value(bytes@.subrange(k as int, n as int)),
        decreases n - k,
    {
        proof {
            let rest = bytes@.subrange(k as int, n as int);
            lemma_be_value_skip_zero(rest);
            assert(rest.drop_first() =~= bytes@.subrange(k + 1, n as int));
        }
        k += 1;
    }
    if k == n {
        let mut out: Vec<u8> = Vec::new();
        out.push(0u8);
        assert(bytes@.subrange(k as int, n as int) =~= Seq::<u8>::empty());
        assert(out@ =~= seq![0u8]);
        out
    } else {
        let out = slice_to_vec(slice_subrange(bytes, k, n));
        proof {
            lemma_minimal_is_be_bytes(out@);
        }
        out
    }
}

/// Re-encodes a little-endian number big-endian, in the fewest bytes.
pub fn be_of_le(bytes: &[u8]) -> (out: Vec<u8>)
    ensures
        out@ == be_bytes(le_value(bytes@)),
{
    let n = bytes.len();
    let mut reversed: Vec<u8> = Vec::new();
    let mut i: usize = n;
    assert(bytes@.subrange(n as int, n as int) =~= Seq::<u8>::empty());
    while i > 0
        invariant
            i <= n,
            n == bytes@.len(),
            be_value(reversed@) == le_value(bytes@.subrange(i as int, n as int)),
        decreases i,
    {
        i -= 1;
        proof {
            lemma_be_value_push(reversed@, bytes@[i as int]);
            let tail = bytes@.subrange(i as int, n as int);
            assert(tail.drop_first() =~= bytes@.subrange(i + 1, n as int));
        }
        reversed.push(bytes[i]);
    }
    assert(bytes@.subrange(0, n as int) =~= bytes@);
    minimal_be(reversed.as_slice())
}

/// The residue of a big-endian number by a machine-sized modulus.
pub fn be_value_mod(bytes: &[u8], modulus: usize) -> (residue: usize)
    requires
        modulus > 0,
    ensures
        residue == be_value(bytes@) % (modulus as nat),
        residue < modulus,
{
    let n = bytes.len();
    let wide: u128 = modulus as u128;
    let mut acc: u128 = 0;
    let mut i: usize = 0;
    proof {
        assert(bytes@.subrange(0, 0) =~= Seq::<u8>::empty());
        lemma_small_mod(0, modulus as nat);
    }
    while i < n
        invariant
            i <= n,
            n == bytes@.len(),
            wide == modulus,
            modulus > 0,
            acc == be_value(bytes@.subrange(0, i as int)) % (modulus as nat),
            acc < wide,
        decreases n - i,
    {
        let digit: u128 = bytes[i] as u128;
        proof {
            let before = bytes@.subrange(0, i as int);
            let upto = bytes@.subrange(0, i + 1);
            assert(upto =~= before.push(bytes@[i as int]));
            lemma_be_value_push(before, bytes@[i as int]);
            let a = be_value(before) as int;
            let m = modulus as int;
            lemma_mul_mod_noop_left(a, 256, m);
            lemma_add_mod_noop(a * 256, digit as int, m);
            lemma_add_mod_noop((a % m) * 256, digit as int, m);
        }
        acc = (acc * 256 + digit) % wide;
        i += 1;
    }
    assert(bytes@.subrange(0, n as int) =~= bytes@);
    acc as usize
}

} // verus!
