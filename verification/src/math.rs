//! Group arithmetic: modular multiplication and exponentiation over `u64`
//! group values, with 128-bit intermediates so no product can overflow.

use vstd::prelude::*;
use vstd::arithmetic::power::{
    pow, lemma_pow0, lemma_pow1, lemma1_pow, lemma_pow_adds, lemma_pow_multiplies,
    lemma_pow_mod_noop, lemma_square_is_pow2,
};
use vstd::arithmetic::div_mod::{
    lemma_fundamental_div_mod, lemma_mod_add_multiples_vanish, lemma_mod_bound,
    lemma_mul_mod_noop, lemma_mul_mod_noop_general, lemma_mul_mod_noop_right, lemma_small_mod,
    lemma_sub_mod_noop,
};
use vstd::arithmetic::mul::{lemma_mul_nonnegative, lemma_mul_upper_bound};

verus! {

/// The prover's response formula: blinding minus challenge times secret,
/// reduced into `[0, q)`.
pub open spec fn response_spec(x: int, k: int, c: int, q: int) -> int {
    (k - c * x) % q
}

/// The Chaum-Pedersen verification equation: both
/// `g^s * y1^c == r1 (mod p)` and `h^s * y2^c == r2 (mod p)` must hold;
/// a partial match is a failure.
pub open spec fn verifies(
    p: int,
    y1: int,
    y2: int,
    r1: int,
    r2: int,
    g: int,
    h: int,
    c: int,
    s: int,
) -> bool {
    &&& (pow(g, s as nat) * pow(y1, c as nat)) % p == r1
    &&& (pow(h, s as nat) * pow(y2, c as nat)) % p == r2
}

/// Product of `a` and `b` reduced modulo `m`.
pub fn mul_mod(a: u64, b: u64, m: u64) -> (r: u64)
    requires
        m > 0,
    ensures
        r == (a as int * b as int) % (m as int),
        r < m,
{
    proof {
        lemma_mul_upper_bound(a as int, u64::MAX as int, b as int, u64::MAX as int);
    }
    let prod: u128 = (a as u128) * (b as u128);
    let rem: u128 = prod % (m as u128);
    rem as u64
}

/// `base` raised to the power `exp`, reduced modulo `m`, by binary
/// square-and-multiply. Defined for every exponent, including zero.
pub fn pow_mod(base: u64, exp: u64, m: u64) -> (r: u64)
    requires
        m > 1,
    ensures
        r == pow(base as int, exp as nat) % (m as int),
        r < m,
{
    let mut result: u64 = 1;
    let mut b: u64 = base % m;
    let mut e: u64 = exp;
    proof {
        lemma_pow_mod_noop(base as int, exp as nat, m as int);
        lemma_mul_mod_noop_right(1, pow(b as int, e as nat), m as int);
    }
    while e > 0
        invariant
            m > 1,
            result < m,
            b < m,
            (result as int * pow(b as int, e as nat)) % (m as int) == pow(
                base as int,
                exp as nat,
            ) % (m as int),
        decreases e,
    {
        proof {
            lemma_pow_mod_step(result as int, b as int, e as nat, m as int);
        }
        if e % 2 == 1 {
            result = mul_mod(result, b, m);
        }
        b = mul_mod(b, b, m);
        e = e / 2;
    }
    proof {
        lemma_pow0(b as int);
        lemma_small_mod(result as nat, m as nat);
    }
    result
}

/// The response `s = (k - c * x) mod q`, always in `[0, q)`. `k` is the
/// blinding value, `c` the challenge, `x` the secret, `q` the group order.
pub fn compute_response(x: u64, k: u64, c: u64, q: u64) -> (s: u64)
    requires
        q > 0,
    ensures
        s == response_spec(x as int, k as int, c as int, q as int),
        s < q,
{
    proof {
        lemma_mul_upper_bound(c as int, u64::MAX as int, x as int, u64::MAX as int);
    }
    let cx: u128 = (c as u128) * (x as u128);
    let cxm: u128 = cx % (q as u128);
    let km: u128 = (k as u128) % (q as u128);
    let s: u128 = (km + ((q as u128) - cxm)) % (q as u128);
    proof {
        lemma_sub_mod_noop(k as int, cx as int, q as int);
        lemma_mod_add_multiples_vanish(km as int - cxm as int, q as int);
        assert(km as int + (q as int - cxm as int) == q as int + (km as int - cxm as int));
    }
    s as u64
}

/// Checks the verification equation on both generators; true only if both
/// sides match.
pub fn verify_proof(
    p: u64,
    y1: u64,
    y2: u64,
    r1: u64,
    r2: u64,
    g: u64,
    h: u64,
    c: u64,
    s: u64,
) -> (ok: bool)
    requires
        p > 1,
    ensures
        ok == verifies(
            p as int,
            y1 as int,
            y2 as int,
            r1 as int,
            r2 as int,
            g as int,
            h as int,
            c as int,
            s as int,
        ),
{
    let lhs1 = mul_mod(pow_mod(g, s, p), pow_mod(y1, c, p), p);
    let lhs2 = mul_mod(pow_mod(h, s, p), pow_mod(y2, c, p), p);
    proof {
        lemma_mul_mod_noop(pow(g as int, s as nat), pow(y1 as int, c as nat), p as int);
        lemma_mul_mod_noop(pow(h as int, s as nat), pow(y2 as int, c as nat), p as int);
    }
    lhs1 == r1 && lhs2 == r2
}

/// Completeness, one generator at a time: when `gg` has order dividing `q`
/// modulo `p`, the correctly computed response satisfies that generator's
/// verification equation.
proof fn lemma_verify_side(p: int, q: int, gg: int, x: int, k: int, c: int)
    requires
        p > 1,
        q > 0,
        gg > 0,
        pow(gg, q as nat) % p == 1,
        0 <= x < q,
        0 <= k < q,
        0 <= c < q,
    ensures
        0 <= response_spec(x, k, c, q) < q,
        (pow(gg, response_spec(x, k, c, q) as nat) * pow(pow(gg, x as nat) % p, c as nat)) % p
            == pow(gg, k as nat) % p,
{
    let s = response_spec(x, k, c, q);
    lemma_mod_bound(k - c * x, q);
    lemma_mul_nonnegative(c, x);
    let d = (k - c * x) / q;
    lemma_fundamental_div_mod(k - c * x, q);
    assert(k - c * x == q * d + s);
    assert(d <= 0) by (nonlinear_arith)
        requires
            q > 0,
            q * d + s == k - c * x,
            s >= 0,
            k - c * x < q,
    ;
    let t = (-d) as nat;
    assert(q * t == -(q * d)) by (nonlinear_arith)
        requires
            t == -d,
    ;
    assert(s + c * x == k + q * t);
    // Split both exponents.
    lemma_pow_adds(gg, s as nat, (c * x) as nat);
    lemma_pow_adds(gg, k as nat, (q * t) as nat);
    assert(pow(gg, s as nat) * pow(gg, (c * x) as nat) == pow(gg, k as nat) * pow(
        gg,
        (q * t) as nat,
    ));
    // The commitment term: pow(pow(gg, x) % p, c) is congruent to pow(gg, x * c).
    lemma_pow_multiplies(gg, x as nat, c as nat);
    lemma_pow_mod_noop(pow(gg, x as nat), c as nat, p);
    assert(x as nat * c as nat == (c * x) as nat) by (nonlinear_arith)
        requires
            x >= 0,
            c >= 0,
    ;
    assert(pow(pow(gg, x as nat) % p, c as nat) % p == pow(gg, (c * x) as nat) % p);
    // The order term: pow(gg, q * t) is congruent to 1.
    lemma_pow_multiplies(gg, q as nat, t);
    assert(q as nat * t == (q * t) as nat) by (nonlinear_arith)
        requires
            q > 0,
    ;
    lemma_pow_mod_noop(pow(gg, q as nat), t, p);
    lemma1_pow(t);
    lemma_small_mod(1nat, p as nat);
    assert(pow(gg, (q * t) as nat) % p == 1);
    // Chain the congruences on the left-hand side of the equation.
    let a = pow(gg, s as nat);
    let tt = pow(pow(gg, x as nat) % p, c as nat);
    lemma_mul_mod_noop_right(a, tt, p);
    lemma_mul_mod_noop_right(a, pow(gg, (c * x) as nat), p);
    assert((a * tt) % p == (a * pow(gg, (c * x) as nat)) % p);
    lemma_mul_mod_noop_right(pow(gg, k as nat), pow(gg, (q * t) as nat), p);
    assert((pow(gg, k as nat) * pow(gg, (q * t) as nat)) % p == (pow(gg, k as nat) * 1) % p);
    assert(pow(gg, k as nat) * 1 == pow(gg, k as nat));
}

/// The public group constants: prime modulus `p`, subgroup order `q`, and
/// two generators `g` and `h` of the order-`q` subgroup. Fixed and known to
/// both roles out of band; they travel in no request.
#[derive(Clone, Copy, Debug, PartialEq, Eq, Structural)]
pub struct GroupParameters {
    pub p: u64,
    pub q: u64,
    pub g: u64,
    pub h: u64,
}

impl GroupParameters {
    /// Well-formed parameters: a modulus above one, a positive order, and
    /// generators above one whose order divides `q` — for a prime `q` that
    /// pins the order to exactly `q`; the unit, whose proofs would
    /// degenerate, is excluded.
    pub open spec fn valid(self) -> bool {
        &&& self.p > 1
        &&& self.q > 0
        &&& 1 < self.g < self.p
        &&& 1 < self.h < self.p
        &&& pow(self.g as int, self.q as nat) % (self.p as int) == 1
        &&& pow(self.h as int, self.q as nat) % (self.p as int) == 1
    }

    /// Checks the validity conditions at run time; returns the parameters
    /// exactly when they hold.
    pub fn new(p: u64, q: u64, g: u64, h: u64) -> (r: Option<GroupParameters>)
        ensures
            match r {
                Some(gp) => gp == (GroupParameters { p, q, g, h }) && gp.valid(),
                None => !(GroupParameters { p, q, g, h }).valid(),
            },
    {
        if p > 1 && q > 0 && 1 < g && g < p && 1 < h && h < p {
            let gq = pow_mod(g, q, p);
            let hq = pow_mod(h, q, p);
            if gq == 1 && hq == 1 {
                return Some(GroupParameters { p, q, g, h });
            }
        }
        None
    }
}

/// Completeness of the protocol: for every secret `x`, blinding `k` and
/// challenge `c` in `[0, q)`, and any `p, q, g, h` where `g` and `h` have
/// order dividing `q` modulo `p`, the honest prover's commitments and
/// response always satisfy the verification equation.
pub proof fn lemma_completeness(p: int, q: int, g: int, h: int, x: int, k: int, c: int)
    requires
        p > 1,
        q > 0,
        g > 0,
        h > 0,
        pow(g, q as nat) % p == 1,
        pow(h, q as nat) % p == 1,
        0 <= x < q,
        0 <= k < q,
        0 <= c < q,
    ensures
        verifies(
            p,
            pow(g, x as nat) % p,
            pow(h, x as nat) % p,
            pow(g, k as nat) % p,
            pow(h, k as nat) % p,
            g,
            h,
            c,
            response_spec(x, k, c, q),
        ),
{
    lemma_verify_side(p, q, g, x, k, c);
    lemma_verify_side(p, q, h, x, k, c);
}

/// One step of square-and-multiply keeps the running product congruent.
proof fn lemma_pow_mod_step(acc: int, b: int, e: nat, m: int)
    requires
        m > 1,
        e > 0,
    ensures
        e % 2 == 1 ==> (((acc * b) % m) * pow((b * b) % m, e / 2)) % m == (acc * pow(b, e)) % m,
        e % 2 == 0 ==> (acc * pow((b * b) % m, e / 2)) % m == (acc * pow(b, e)) % m,
{
    let half = e / 2;
    lemma_square_is_pow2(b);
    lemma_pow_multiplies(b, 2, half);
    lemma_pow_mod_noop(b * b, half, m);
    if e % 2 == 1 {
        let x = acc * b;
        let p = pow(b * b, half);
        let pm = pow((b * b) % m, half);
        assert(e == 2 * half + 1);
        lemma_pow_adds(b, 2 * half, 1);
        lemma_pow1(b);
        assert(pow(b, e) == p * b);
        lemma_mul_mod_noop_right(x, pm, m);
        lemma_mul_mod_noop_right(x, p, m);
        assert((x * pm) % m == (x * p) % m);
        lemma_mul_mod_noop_general(x, pm, m);
        assert((acc * b) * p == acc * (p * b)) by (nonlinear_arith);
        assert(((x % m) * pm) % m == (acc * pow(b, e)) % m);
    } else {
        assert(e == 2 * half);
        assert(pow(b, e) == pow(b * b, half));
        lemma_mul_mod_noop_right(acc, pow((b * b) % m, half), m);
        lemma_mul_mod_noop_right(acc, pow(b * b, half), m);
    }
}

} // verus!
