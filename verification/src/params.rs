//! The parameter record and its two canonical profiles.

use vstd::prelude::*;
use crate::hash::HASH_BYTES;

verus! {

/// Cost and size parameters of one digest.
#[derive(Clone, Copy, Debug, PartialEq, Eq, Structural)]
pub struct Params {
    /// Memory factor: the number of entries in the table.
    pub m: usize,
    /// Number of mixing rounds.
    pub l: usize,
    /// Number of modular squarings between two neighbouring table entries.
    pub time_complexity: usize,
    /// Size of the RSA modulus in bits.
    pub key_bit_size: usize,
    /// Size of the digest in bytes.
    pub hash_bytes_size: usize,
}

impl Params {
    /// The records that a digest accepts: at least one table entry, a
    /// modulus of at least one bit, and a digest no wider than one hash.
    pub open spec fn valid(&self) -> bool {
        &&& self.m >= 1
        &&& self.key_bit_size >= 1
        &&& self.hash_bytes_size <= HASH_BYTES
    }

    /// Decides `valid`.
    pub fn is_valid(&self) -> (ok: bool)
        ensures
            ok == self.valid(),
    {
        self.m >= 1 && self.key_bit_size >= 1 && self.hash_bytes_size <= HASH_BYTES
    }
}

/// The CPU-heavy profile: few entries, many squarings per entry.
pub fn conservative_params() -> (params: Params)
    ensures
        params == (Params {
            m: 4_000,
            l: 4_000,
            time_complexity: 2048,
            key_bit_size: 2048,
            hash_bytes_size: 16,
        }),
        params.valid(),
{
    Params {
        m: 4_000usize,
        l: 4_000usize,
        time_complexity: 2048usize,
        key_bit_size: 2048usize,
        hash_bytes_size: 16usize,
    }
}

/// The memory-heavy profile: one squaring per entry, millions of entries.
pub fn fast_params() -> (params: Params)
    ensures
        params == (Params {
            m: 8_000_000,
            l: 20_000,
            time_complexity: 1,
            key_bit_size: 1024,
            hash_bytes_size: 16,
        }),
        params.valid(),
{
    Params {
        m: 8_000_000usize,
        l: 20_000usize,
        time_complexity: 1usize,
        key_bit_size: 1024usize,
        hash_bytes_size: 16usize,
    }
}

} // verus!
