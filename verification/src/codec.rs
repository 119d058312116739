//! Canonical big-endian byte encoding of group values.
//!
//! `encode` writes the shortest big-endian byte string for a value (a single
//! zero byte for zero); `decode` reads any big-endian byte string back, and
//! fails — it never panics — when the value does not fit a group word.

use vstd::prelude::*;
use vstd::arithmetic::div_mod::lemma_fundamental_div_mod;
use crate::AuthError;

verus! {

/// The value of a big-endian byte string.
pub open spec fn be_val(s: Seq<u8>) -> nat
    decreases s.len(),
{
    if s.len() == 0 {
        0
    } else {
        be_val(s.drop_last()) * 256 + s.last() as nat
    }
}

/// Whether a value fits one group word.
pub open spec fn fits_word(n: nat) -> bool {
    n < 0x1_0000_0000_0000_0000
}

/// The shortest big-endian byte string for `n`; empty for zero.
pub open spec fn min_be_bytes(n: nat) -> Seq<u8>
    decreases n,
{
    if n == 0 {
        Seq::empty()
    } else {
        min_be_bytes(n / 256).push((n % 256) as u8)
    }
}

/// The canonical encoding: a single zero byte for zero, otherwise the
/// shortest big-endian byte string.
pub open spec fn encode_spec(n: nat) -> Seq<u8> {
    if n == 0 {
        seq![0u8]
    } else {
        min_be_bytes(n)
    }
}

/// Reading one more byte multiplies the prefix value by 256 and adds it.
proof fn lemma_be_val_take_succ(s: Seq<u8>, i: int)
    requires
        0 <= i < s.len(),
    ensures
        be_val(s.take(i + 1)) == be_val(s.take(i)) * 256 + s[i],
{
    assert(s.take(i + 1).drop_last() =~= s.take(i));
    assert(s.take(i + 1).last() == s[i]);
}

/// The value of a prefix never exceeds the value of a longer prefix.
proof fn lemma_be_val_take_monotone(s: Seq<u8>, i: int, j: int)
    requires
        0 <= i <= j <= s.len(),
    ensures
        be_val(s.take(i)) <= be_val(s.take(j)),
    decreases j - i,
{
    if i < j {
        lemma_be_val_take_monotone(s, i, j - 1);
        lemma_be_val_take_succ(s, j - 1);
        assert(be_val(s.take(j - 1)) * 256 >= be_val(s.take(j - 1))) by (nonlinear_arith);
    }
}

/// The shortest big-endian byte string reads back as the value it encodes.
proof fn lemma_min_be_bytes_val(n: nat)
    ensures
        be_val(min_be_bytes(n)) == n,
    decreases n,
{
    if n > 0 {
        lemma_min_be_bytes_val(n / 256);
        assert(min_be_bytes(n).drop_last() =~= min_be_bytes(n / 256));
        assert(min_be_bytes(n).last() == (n % 256) as u8);
        lemma_fundamental_div_mod(n as int, 256);
    }
}

/// Round trip: the canonical encoding of any group word reads back as
/// exactly that word.
pub proof fn lemma_round_trip(n: u64)
    ensures
        be_val(encode_spec(n as nat)) == n as nat,
        fits_word(be_val(encode_spec(n as nat))),
{
    if n == 0 {
        let s0 = encode_spec(n as nat);
        assert(s0 == seq![0u8]);
        assert(s0.len() == 1);
        assert(s0.drop_last() =~= Seq::<u8>::empty());
        assert(be_val(s0.drop_last()) == 0);
        assert(s0.last() == 0u8);
        assert(be_val(s0) == be_val(s0.drop_last()) * 256 + s0.last() as nat);
    } else {
        lemma_min_be_bytes_val(n as nat);
    }
}

/// The shortest big-endian byte string of a nonzero word, built least
/// significant byte last.
fn encode_nonzero(n: u64) -> (r: Vec<u8>)
    ensures
        r@ == min_be_bytes(n as nat),
    decreases n,
{
    if n == 0 {
        Vec::new()
    } else {
        let mut v = encode_nonzero(n / 256);
        v.push((n % 256) as u8);
        v
    }
}

/// The canonical big-endian encoding of `n`.
pub fn encode(n: u64) -> (r: Vec<u8>)
    ensures
        r@ == encode_spec(n as nat),
        be_val(r@) == n as nat,
        r@.len() >= 1,
{
    proof {
        lemma_round_trip(n);
    }
    if n == 0 {
        let mut v: Vec<u8> = Vec::new();
        v.push(0u8);
        proof {
            assert(v@ =~= seq![0u8]);
        }
        v
    } else {
        encode_nonzero(n)
    }
}

/// Reads a big-endian byte string. Total: returns the value when it fits a
/// group word, and `InvalidArgument` — exactly when it does not — otherwise.
pub fn decode(bytes: &[u8]) -> (r: Result<u64, AuthError>)
    ensures
        match r {
            Ok(n) => n as nat == be_val(bytes@) && fits_word(be_val(bytes@)),
            Err(e) => e == AuthError::InvalidArgument && !fits_word(be_val(bytes@)),
        },
{
    let mut acc: u64 = 0;
    let mut i: usize = 0;
    let n = bytes.len();
    while i < n
        invariant
            i <= n,
            n == bytes@.len(),
            acc as nat == be_val(bytes@.take(i as int)),
        decreases n - i,
    {
        let b = bytes[i];
        proof {
            lemma_be_val_take_succ(bytes@, i as int);
        }
        if acc >= 0x100_0000_0000_0000 {
            proof {
                lemma_be_val_take_monotone(bytes@, i as int + 1, n as int);
                assert(bytes@.take(n as int) =~= bytes@);
            }
            return Err(AuthError::InvalidArgument);
        }
        acc = acc * 256 + (b as u64);
        i = i + 1;
    }
    proof {
        assert(bytes@.take(n as int) =~= bytes@);
    }
    Ok(acc)
}

} // verus!
