//! Diodon: an asymmetric memory-hard hash.
//!
//! Two routines compute the same fingerprint of a message. The holder of the
//! factorisation `(p, q)` of an RSA modulus takes a shortcut through Euler's
//! theorem; everybody else has to build a table of sequential modular
//! squarings and keep it in memory while mixing.
//!
//! * `params`: the parameter record and its two profiles.
//! * `keys`: the key pair, and its generation.
//! * `engine`: the two paths, `privileged` and `non_priviledged`, and the
//!   mixing they share.
//! * `util`: repeated squaring, the table, and exponentiation through the
//!   Chinese remainder theorem.
//! * `natural` and `encoding`: numbers of any size and their bytes.
//! * `hash`: the hash of the mixing.
//! * `number_theory` and `laws`: why the two paths agree.
//!
//! The arithmetic on big numbers, the hash and the search for primes are
//! done by the crates `num-bigint`, `blake3` and `rsa`. What is taken on
//! trust of them stands on the private functions that call them, in
//! `natural`, `hash` and `keys`; everything else is proved.

pub mod encoding;
pub mod engine;
pub mod error;
pub mod hash;
pub mod keys;
pub mod laws;
pub mod natural;
pub mod number_theory;
pub mod params;
pub mod util;

pub use engine::{
    diodon_non_privileged, diodon_non_privileged_in, diodon_privileged, non_priviledged, privileged,
};
pub use error::DiodonError;
pub use keys::{generate_keys, PrivateKey, PublicKey};
pub use natural::Natural;
pub use params::{conservative_params, fast_params, Params};
