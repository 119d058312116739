//! Random scalars and random identifiers.
//!
//! Nothing can be promised of a random value itself, so the draws sit behind
//! trusted items stating only what holds of every outcome; the reduction of a
//! wide draw into a scalar range is verified code.

use vstd::prelude::*;
use rand::Rng;
use rand::distributions::Alphanumeric;

verus! {

/// A character of the identifier alphabet: ASCII digits and letters.
pub open spec fn is_id_char(c: char) -> bool {
    ('0' <= c && c <= '9') || ('A' <= c && c <= 'Z') || ('a' <= c && c <= 'z')
}

/// An identifier: every character drawn from the alphanumeric alphabet.
pub open spec fn is_identifier(s: Seq<char>) -> bool {
    forall|i: int| 0 <= i < s.len() ==> is_id_char(#[trigger] s[i])
}

/// Relies on `rand::random`: one draw of a 128-bit value from the
/// thread-local cryptographically secure generator, safe to call from any
/// thread. Nothing is promised of the value.
#[verifier::external_body]
fn random_u128() -> u128 {
    rand::random::<u128>()
}

/// A uniform scalar in `[0, order)`. Reducing a 128-bit draw modulo an order
/// of at most 64 bits keeps the sampling bias below 2^-64 (wide sampling
/// rather than naive fixed-width modulo).
pub fn random_scalar(order: u64) -> (r: u64)
    requires
        order > 0,
    ensures
        r < order,
{
    let wide = random_u128();
    let r = wide % (order as u128);
    r as u64
}

/// Relies on rand's `Alphanumeric` distribution: every sampled byte is an
/// ASCII digit or letter, so the collected string has exactly `len`
/// characters, all from the identifier alphabet. The value itself is
/// unpredictable and nothing more is promised of it.
#[verifier::external_body]
pub(crate) fn random_identifier(len: usize) -> (r: String)
    ensures
        r@.len() == len as nat,
        is_identifier(r@),
{
    rand::thread_rng().sample_iter(&Alphanumeric).take(len).map(char::from).collect()
}

} // verus!
