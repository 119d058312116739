use zkp_auth::codec::{decode, encode};
use zkp_auth::math::{pow_mod, GroupParameters};
use zkp_auth::prover::{begin_challenge, register_commitments, respond};
use zkp_auth::service::AuthImpl;
use zkp_auth::AuthError;

const P: u64 = 23;
const Q: u64 = 11;
const G: u64 = 4;
const H: u64 = 9;

fn demo_params() -> GroupParameters {
    GroupParameters::new(P, Q, G, H).expect("demo group constants are valid")
}

fn is_alphanumeric_id(s: &str, len: usize) -> bool {
    s.len() == len && s.chars().all(|c| c.is_ascii_alphanumeric())
}

#[test]
fn unknown_user_challenge_fails_not_found() {
    let mut service = AuthImpl::new(demo_params());
    let r1 = encode(pow_mod(G, 3, P));
    let r2 = encode(pow_mod(H, 3, P));
    let user = String::from("nosuchuser");
    assert_eq!(
        service.create_authentication_challenge(&user, &r1, &r2).unwrap_err(),
        AuthError::NotFound
    );
}

#[test]
fn unknown_auth_verify_fails_not_found() {
    let mut service = AuthImpl::new(demo_params());
    let bogus = String::from("bogus-id");
    let s = encode(4);
    assert_eq!(service.verify_authentication(&bogus, &s).unwrap_err(), AuthError::NotFound);
}

#[test]
fn malformed_bytes_fail_invalid_argument() {
    let mut service = AuthImpl::new(demo_params());
    let user = String::from("user123");
    let good = encode(3);
    let oversized: Vec<u8> = vec![0xff; 9];
    assert_eq!(
        service.register(user.clone(), &oversized, &good).unwrap_err(),
        AuthError::InvalidArgument
    );
    assert_eq!(
        service.register(user.clone(), &good, &oversized).unwrap_err(),
        AuthError::InvalidArgument
    );
    // An unregistered user still reports NotFound first.
    assert_eq!(
        service.create_authentication_challenge(&user, &oversized, &good).unwrap_err(),
        AuthError::NotFound
    );
    service.register(user.clone(), &good, &good).unwrap();
    assert_eq!(
        service.create_authentication_challenge(&user, &oversized, &good).unwrap_err(),
        AuthError::InvalidArgument
    );
}

#[test]
fn wrong_response_verify_fails_unauthenticated() {
    let params = demo_params();
    let mut service = AuthImpl::new(params);
    let user = String::from("user123");
    let x: u64 = 123456789;

    let (y1, y2) = register_commitments(&params, x);
    service.register(user.clone(), &encode(y1), &encode(y2)).unwrap();

    let (k, r1, r2) = begin_challenge(&params);
    let (auth_id, c_bytes) =
        service.create_authentication_challenge(&user, &encode(r1), &encode(r2)).unwrap();
    let c = decode(&c_bytes).unwrap();

    let s = respond(&params, x, k, c);
    let wrong = (s + 1) % params.q;
    assert_eq!(
        service.verify_authentication(&auth_id, &encode(wrong)).unwrap_err(),
        AuthError::Unauthenticated
    );
    // No session was issued.
    let stored = service.get_user_info(&user).unwrap();
    assert_eq!(stored.session_id, String::new());
    // The challenge entry survives the failure: a later correct response
    // against the same auth_id still passes (the reference behaviour keeps
    // no replay protection).
    let session = service.verify_authentication(&auth_id, &encode(s)).unwrap();
    assert!(is_alphanumeric_id(&session, 6));
}

#[test]
fn end_to_end_authentication_issues_session() {
    let params = demo_params();
    let mut service = AuthImpl::new(params);
    let user = String::from("user123");
    let x: u64 = 123456789;

    let (y1, y2) = register_commitments(&params, x);
    service.register(user.clone(), &encode(y1), &encode(y2)).unwrap();

    let stored = service.get_user_info(&user).unwrap();
    assert_eq!(stored.y1, y1);
    assert_eq!(stored.y2, y2);
    assert_eq!(stored.session_id, String::new());

    let (k, r1, r2) = begin_challenge(&params);
    let (auth_id, c_bytes) =
        service.create_authentication_challenge(&user, &encode(r1), &encode(r2)).unwrap();
    assert!(is_alphanumeric_id(&auth_id, 6));
    let c = decode(&c_bytes).unwrap();
    assert!(c < params.q);

    let s = respond(&params, x, k, c);
    let session = service.verify_authentication(&auth_id, &encode(s)).unwrap();
    assert!(is_alphanumeric_id(&session, 6));

    // The stored record reflects the authenticated state.
    let stored = service.get_user_info(&user).unwrap();
    assert_eq!(stored.r1, r1);
    assert_eq!(stored.r2, r2);
    assert_eq!(stored.c, c);
    assert_eq!(stored.session_id, session);
}

#[test]
fn re_registration_overwrites_and_clears() {
    let params = demo_params();
    let mut service = AuthImpl::new(params);
    let user = String::from("user123");

    let (y1, y2) = register_commitments(&params, 4);
    service.register(user.clone(), &encode(y1), &encode(y2)).unwrap();
    let (k, r1, r2) = begin_challenge(&params);
    let (auth_id, c_bytes) =
        service.create_authentication_challenge(&user, &encode(r1), &encode(r2)).unwrap();
    let c = decode(&c_bytes).unwrap();
    let s = respond(&params, 4, k, c);
    service.verify_authentication(&auth_id, &encode(s)).unwrap();

    // Last write wins: a new registration replaces the commitments and
    // clears the attempt fields and the session.
    let (ny1, ny2) = register_commitments(&params, 7);
    service.register(user.clone(), &encode(ny1), &encode(ny2)).unwrap();
    let stored = service.get_user_info(&user).unwrap();
    assert_eq!(stored.y1, ny1);
    assert_eq!(stored.y2, ny2);
    assert_eq!(stored.r1, 0);
    assert_eq!(stored.r2, 0);
    assert_eq!(stored.c, 0);
    assert_eq!(stored.session_id, String::new());
}

#[test]
fn distinct_users_never_cross_contaminate() {
    let params = demo_params();
    let mut service = AuthImpl::new(params);

    // Many users registered in turn are all independently retrievable.
    for i in 0..10u64 {
        let user = format!("user-{}", i);
        let (y1, y2) = register_commitments(&params, i);
        service.register(user, &encode(y1), &encode(y2)).unwrap();
    }
    for i in 0..10u64 {
        let user = format!("user-{}", i);
        let (y1, y2) = register_commitments(&params, i);
        let stored = service.get_user_info(&user).unwrap();
        assert_eq!(stored.y1, y1);
        assert_eq!(stored.y2, y2);
    }

    // Interleaved challenge/verify cycles for two users leave each other's
    // attempt fields and sessions untouched.
    let alice = String::from("user-3");
    let bob = String::from("user-7");
    let (ka, r1a, r2a) = begin_challenge(&params);
    let (auth_a, ca_bytes) =
        service.create_authentication_challenge(&alice, &encode(r1a), &encode(r2a)).unwrap();
    let (kb, r1b, r2b) = begin_challenge(&params);
    let (auth_b, cb_bytes) =
        service.create_authentication_challenge(&bob, &encode(r1b), &encode(r2b)).unwrap();

    let ca = decode(&ca_bytes).unwrap();
    let cb = decode(&cb_bytes).unwrap();
    let session_a =
        service.verify_authentication(&auth_a, &encode(respond(&params, 3, ka, ca))).unwrap();

    // Alice's success changed nothing of Bob's pending attempt.
    let bob_stored = service.get_user_info(&bob).unwrap();
    assert_eq!(bob_stored.r1, r1b);
    assert_eq!(bob_stored.r2, r2b);
    assert_eq!(bob_stored.c, cb);
    assert_eq!(bob_stored.session_id, String::new());

    let session_b =
        service.verify_authentication(&auth_b, &encode(respond(&params, 7, kb, cb))).unwrap();
    let alice_stored = service.get_user_info(&alice).unwrap();
    assert_eq!(alice_stored.session_id, session_a);
    assert_eq!(alice_stored.r1, r1a);
    let bob_stored = service.get_user_info(&bob).unwrap();
    assert_eq!(bob_stored.session_id, session_b);
}
