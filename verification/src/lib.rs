//! A Chaum-Pedersen zero-knowledge authentication core.
//!
//! A prover convinces a verifier that it knows a secret `x` with public
//! commitments `y1 = g^x mod p` and `y2 = h^x mod p`, without ever sending
//! `x`. The crate holds the group arithmetic, the canonical byte encoding of
//! group values, the prover's computations, and the verifier's three-step
//! protocol state machine (registration, challenge, verification) with its
//! session bookkeeping. Transport between the two roles is out of scope: the
//! verifier's operations take and return plain values that a host program can
//! carry over any wire.

use vstd::prelude::*;

pub mod codec;
pub mod math;
pub mod prover;
pub mod rng;
pub mod service;

verus! {

/// The closed set of failures the protocol reports. No input may crash the
/// service: every failure travels as one of these values.
#[derive(Clone, Copy, Debug, PartialEq, Eq, Structural)]
pub enum AuthError {
    /// An unknown user identifier or authentication identifier.
    NotFound,
    /// The verification equation does not hold for the submitted response.
    Unauthenticated,
    /// A byte string that does not decode to a group value.
    InvalidArgument,
    /// An invariant violation, such as an identifier collision.
    Internal,
}

} // verus!
