use zkp_auth::codec::{decode, encode};
use zkp_auth::math::{compute_response, mul_mod, pow_mod, verify_proof, GroupParameters};
use zkp_auth::AuthError;

const P: u64 = 23;
const Q: u64 = 11;
const G: u64 = 4;
const H: u64 = 9;

fn demo_params() -> GroupParameters {
    GroupParameters::new(P, Q, G, H).expect("demo group constants are valid")
}

#[test]
fn encode_decode_round_trip() {
    let values: Vec<u64> = vec![
        0,
        1,
        2,
        255,
        256,
        257,
        65535,
        65536,
        123456789,
        0x0123_4567_89ab_cdef,
        u64::MAX - 1,
        u64::MAX,
    ];
    for n in values {
        let bytes = encode(n);
        assert_eq!(decode(&bytes), Ok(n));
    }
}

#[test]
fn encode_is_canonical() {
    assert_eq!(encode(0), vec![0u8]);
    assert_eq!(encode(1), vec![1u8]);
    assert_eq!(encode(255), vec![255u8]);
    assert_eq!(encode(256), vec![1u8, 0u8]);
    assert_eq!(encode(123456789), vec![0x07, 0x5b, 0xcd, 0x15]);
    assert_eq!(encode(u64::MAX), vec![0xff; 8]);
}

#[test]
fn decode_accepts_redundant_leading_zeros() {
    assert_eq!(decode(&[]), Ok(0));
    assert_eq!(decode(&[0, 0, 0]), Ok(0));
    assert_eq!(decode(&[0, 0, 1]), Ok(1));
    assert_eq!(decode(&[0; 12]), Ok(0));
}

#[test]
fn decode_rejects_oversized_values() {
    assert_eq!(decode(&[0xff; 9]), Err(AuthError::InvalidArgument));
    assert_eq!(decode(&[1, 0, 0, 0, 0, 0, 0, 0, 0]), Err(AuthError::InvalidArgument));
    // The same nine bytes with a zero up front still fit a word.
    assert_eq!(decode(&[0, 1, 0, 0, 0, 0, 0, 0, 0]), Ok(1 << 56));
}

#[test]
fn modular_arithmetic_exact_values() {
    assert_eq!(mul_mod(7, 9, 23), 63 % 23);
    assert_eq!(mul_mod(u64::MAX, u64::MAX, 97), {
        let m = (u64::MAX as u128) * (u64::MAX as u128) % 97;
        m as u64
    });
    assert_eq!(pow_mod(4, 11, 23), 1);
    assert_eq!(pow_mod(9, 11, 23), 1);
    assert_eq!(pow_mod(5, 0, 23), 1);
    assert_eq!(pow_mod(2, 10, 1024), 0);
    assert_eq!(pow_mod(3, 4, 1000), 81);
}

#[test]
fn response_formula_exact_values() {
    // s = (k - c * x) mod q, always in [0, q).
    assert_eq!(compute_response(3, 7, 2, 11), (7 + 11 * 11 - 2 * 3) % 11);
    assert_eq!(compute_response(0, 0, 0, 11), 0);
    // Underflow wraps into the group order.
    assert_eq!(compute_response(10, 0, 10, 11), (11 * 11 - 100) % 11);
    // Huge products stay correct.
    assert_eq!(compute_response(u64::MAX, 5, u64::MAX, 11), {
        let q = 11u128;
        let cx = (u64::MAX as u128) * (u64::MAX as u128) % q;
        ((5 + q - cx) % q) as u64
    });
}

#[test]
fn group_parameter_validation() {
    assert!(GroupParameters::new(P, Q, G, H).is_some());
    // 5 is not in the order-11 subgroup mod 23.
    assert!(GroupParameters::new(P, Q, 5, H).is_none());
    assert!(GroupParameters::new(P, Q, G, 5).is_none());
    // The unit is no generator: its order is one, not Q.
    assert!(GroupParameters::new(P, Q, 1, H).is_none());
    assert!(GroupParameters::new(P, Q, G, 1).is_none());
    // A modulus of one admits no group at all.
    assert!(GroupParameters::new(1, Q, G, H).is_none());
    assert!(GroupParameters::new(P, 0, G, H).is_none());
}

#[test]
fn completeness_over_whole_small_group() {
    let params = demo_params();
    for x in 0..Q {
        let y1 = pow_mod(G, x, P);
        let y2 = pow_mod(H, x, P);
        for k in 0..Q {
            let r1 = pow_mod(G, k, P);
            let r2 = pow_mod(H, k, P);
            for c in 0..Q {
                let s = compute_response(x, k, c, params.q);
                assert!(verify_proof(P, y1, y2, r1, r2, G, H, c, s));
            }
        }
    }
}

#[test]
fn soundness_rejects_mutations() {
    let (x, k, c) = (5u64, 7u64, 3u64);
    let y1 = pow_mod(G, x, P);
    let y2 = pow_mod(H, x, P);
    let r1 = pow_mod(G, k, P);
    let r2 = pow_mod(H, k, P);
    let s = compute_response(x, k, c, Q);
    assert!(verify_proof(P, y1, y2, r1, r2, G, H, c, s));
    // A response off by one in either direction fails.
    assert!(!verify_proof(P, y1, y2, r1, r2, G, H, c, (s + 1) % Q));
    assert!(!verify_proof(P, y1, y2, r1, r2, G, H, c, (s + Q - 1) % Q));
    // A damaged commitment fails: the equation compares it exactly.
    assert!(!verify_proof(P, y1 ^ 1, y2, r1, r2, G, H, c, s));
    assert!(!verify_proof(P, y1, y2, r1 ^ 1, r2, G, H, c, s));
    assert!(!verify_proof(P, y1, y2, r1, r2 ^ 1, G, H, c, s));
    // A damaged challenge fails for a secret outside the kernel.
    assert!(!verify_proof(P, y1, y2, r1, r2, G, H, c + 1, s));
    // Matching only the first of the two equations is a failure, not a pass.
    assert!(!verify_proof(P, y1, pow_mod(H, x + 1, P), r1, r2, G, H, c, s));
}
