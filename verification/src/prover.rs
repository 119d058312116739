//! The prover's side of the protocol: commitments from the secret, a fresh
//! blinding value per attempt, and the response to a challenge.

use vstd::prelude::*;
use vstd::arithmetic::power::pow;
use crate::math::{compute_response, pow_mod, response_spec, GroupParameters};
use crate::rng::random_scalar;

verus! {

/// The registration commitments `y1 = g^x mod p` and `y2 = h^x mod p`. The
/// secret `x` itself is sent nowhere.
pub fn register_commitments(params: &GroupParameters, x: u64) -> (r: (u64, u64))
    requires
        params.valid(),
    ensures
        r.0 == pow(params.g as int, x as nat) % (params.p as int),
        r.1 == pow(params.h as int, x as nat) % (params.p as int),
{
    (pow_mod(params.g, x, params.p), pow_mod(params.h, x, params.p))
}

/// Opens one authentication attempt: draws a fresh blinding value `k` and
/// derives the attempt commitments `r1 = g^k mod p` and `r2 = h^k mod p`.
/// The blinding value must be fresh per attempt — reusing it across two
/// challenges would let an observer recover the secret.
pub fn begin_challenge(params: &GroupParameters) -> (r: (u64, u64, u64))
    requires
        params.valid(),
    ensures
        r.0 < params.q,
        r.1 == pow(params.g as int, r.0 as nat) % (params.p as int),
        r.2 == pow(params.h as int, r.0 as nat) % (params.p as int),
{
    let k = random_scalar(params.q);
    let r1 = pow_mod(params.g, k, params.p);
    let r2 = pow_mod(params.h, k, params.p);
    (k, r1, r2)
}

/// The response to a challenge `c` under blinding `k`: delegates to the
/// response formula over the group order.
pub fn respond(params: &GroupParameters, x: u64, k: u64, c: u64) -> (s: u64)
    requires
        params.q > 0,
    ensures
        s == response_spec(x as int, k as int, c as int, params.q as int),
        s < params.q,
{
    compute_response(x, k, c, params.q)
}

} // verus!
