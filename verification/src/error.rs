//! The ways in which an invocation can fail.

use vstd::prelude::*;

verus! {

/// Why a call did not produce a value. Every failure is final for the call
/// that reports it.
#[derive(Clone, Copy, Debug, PartialEq, Eq, Structural)]
pub enum DiodonError {
    /// The parameter record cannot drive a digest.
    InvalidParameters,
    /// The random search for an RSA key pair gave nothing usable.
    KeyGenFailed,
    /// The memory table could not be reserved.
    OutOfMemory,
    /// A modulus or a factor is outside the domain of the arithmetic.
    ArithmeticPreconditionViolated,
}

impl DiodonError {
    /// A short description, for messages.
    pub fn describe(&self) -> (text: &'static str)
        ensures
            text@.len() > 0,
    {
        match self {
            DiodonError::InvalidParameters => {
                proof { reveal_strlit("invalid parameters"); }
                "invalid parameters"
            },
            DiodonError::KeyGenFailed => {
                proof { reveal_strlit("key generation failed"); }
                "key generation failed"
            },
            DiodonError::OutOfMemory => {
                proof { reveal_strlit("out of memory"); }
                "out of memory"
            },
            DiodonError::ArithmeticPreconditionViolated => {
                proof { reveal_strlit("arithmetic precondition violated"); }
                "arithmetic precondition violated"
            },
        }
    }
}

} // verus!
