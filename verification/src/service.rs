//! The verifier: the three-step protocol state machine over two maps, one
//! from user identifier to record, one from challenge identifier to user
//! identifier. Every transition is one or two map updates; a host that
//! serves concurrent callers wraps the whole state in a lock (the record
//! map and the challenge index are the two shared resources; here each
//! transition touches them in one fixed order, challenge index first where
//! both are read).

use vstd::prelude::*;
use vstd::hash_map::StringHashMap;
use crate::AuthError;
use crate::codec::{be_val, decode, encode, encode_spec, fits_word};
use crate::math::{verifies, verify_proof, GroupParameters};
use crate::rng::{is_identifier, random_identifier, random_scalar};

verus! {

/// The length of every challenge identifier and session identifier.
pub const ID_LENGTH: usize = 6;

/// Per-user verifier state. The user's secret never appears in it: only the
/// public commitments, the transient per-attempt values, and the session
/// token of the last successful verification.
pub struct UserInfo {
    /// Registration commitment `g^x mod p`.
    pub y1: u64,
    /// Registration commitment `h^x mod p`.
    pub y2: u64,
    /// Attempt commitment `g^k mod p`, overwritten each challenge.
    pub r1: u64,
    /// Attempt commitment `h^k mod p`, overwritten each challenge.
    pub r2: u64,
    /// The challenge issued for the current attempt.
    pub c: u64,
    /// Set only by a successful verification; empty otherwise.
    pub session_id: String,
}

/// The mathematical content of a stored record.
pub struct UserRecord {
    pub y1: nat,
    pub y2: nat,
    pub r1: nat,
    pub r2: nat,
    pub c: nat,
    pub session_id: Seq<char>,
}

impl View for UserInfo {
    type V = UserRecord;

    open spec fn view(&self) -> UserRecord {
        UserRecord {
            y1: self.y1 as nat,
            y2: self.y2 as nat,
            r1: self.r1 as nat,
            r2: self.r2 as nat,
            c: self.c as nat,
            session_id: self.session_id@,
        }
    }
}

/// The verifier service: fixed group parameters and the two maps.
pub struct AuthImpl {
    /// The public group constants, fixed at construction.
    pub params: GroupParameters,
    /// User identifier to record.
    pub user_info: StringHashMap<UserInfo>,
    /// Challenge identifier to user identifier.
    pub auth_info: StringHashMap<String>,
}

impl AuthImpl {
    /// The record map, read as mathematics.
    pub open spec fn users(self) -> Map<Seq<char>, UserRecord> {
        Map::new(
            |k: Seq<char>| self.user_info@.contains_key(k),
            |k: Seq<char>| self.user_info@[k]@,
        )
    }

    /// The challenge index, read as mathematics.
    pub open spec fn auths(self) -> Map<Seq<char>, Seq<char>> {
        Map::new(
            |k: Seq<char>| self.auth_info@.contains_key(k),
            |k: Seq<char>| self.auth_info@[k]@,
        )
    }

    /// A well-formed service: its group parameters hold.
    pub open spec fn wf(self) -> bool {
        self.params.valid()
    }

    /// A fresh verifier around fixed group parameters: no users, no pending
    /// challenges.
    pub fn new(params: GroupParameters) -> (r: AuthImpl)
        requires
            params.valid(),
        ensures
            r.wf(),
            r.params == params,
            r.users() == Map::<Seq<char>, UserRecord>::empty(),
            r.auths() == Map::<Seq<char>, Seq<char>>::empty(),
    {
        let r = AuthImpl {
            params,
            user_info: StringHashMap::new(),
            auth_info: StringHashMap::new(),
        };
        proof {
            assert(r.users() =~= Map::<Seq<char>, UserRecord>::empty());
            assert(r.auths() =~= Map::<Seq<char>, Seq<char>>::empty());
        }
        r
    }

    /// Registers a user under `user`, with the commitments carried as
    /// canonical bytes. Always succeeds for bytes that decode, re-registration
    /// included (last write wins); stores the commitments and clears the
    /// attempt fields and session. Fails exactly when a byte string does not
    /// decode to a group word, and then changes nothing.
    pub fn register(&mut self, user: String, y1_bytes: &Vec<u8>, y2_bytes: &Vec<u8>) -> (r:
        Result<(), AuthError>)
        requires
            old(self).wf(),
        ensures
            final(self).wf(),
            final(self).params == old(self).params,
            final(self).auths() == old(self).auths(),
            match r {
                Ok(()) => {
                    &&& fits_word(be_val(y1_bytes@))
                    &&& fits_word(be_val(y2_bytes@))
                    &&& final(self).users() == old(self).users().insert(
                        user@,
                        (UserRecord {
                            y1: be_val(y1_bytes@),
                            y2: be_val(y2_bytes@),
                            r1: 0,
                            r2: 0,
                            c: 0,
                            session_id: Seq::empty(),
                        }),
                    )
                },
                Err(e) => {
                    &&& e == AuthError::InvalidArgument
                    &&& !(fits_word(be_val(y1_bytes@)) && fits_word(be_val(y2_bytes@)))
                    &&& final(self).users() == old(self).users()
                },
            },
    {
        let y1 = match decode(y1_bytes.as_slice()) {
            Ok(v) => v,
            Err(e) => {
                return Err(e);
            },
        };
        let y2 = match decode(y2_bytes.as_slice()) {
            Ok(v) => v,
            Err(e) => {
                return Err(e);
            },
        };
        let rec = UserInfo { y1, y2, r1: 0, r2: 0, c: 0, session_id: String::new() };
        self.user_info.insert(user, rec);
        proof {
            assert(self.users() =~= old(self).users().insert(
                user@,
                (UserRecord {
                    y1: be_val(y1_bytes@),
                    y2: be_val(y2_bytes@),
                    r1: 0,
                    r2: 0,
                    c: 0,
                    session_id: Seq::empty(),
                }),
            ));
            assert(self.auths() =~= old(self).auths());
        }
        Ok(())
    }

    /// The challenge transition, deterministic in the drawn challenge value
    /// `c` and identifier `auth_id`: requires an existing record, stores the
    /// attempt commitments and the challenge in it, and indexes the attempt
    /// under `auth_id`. Succeeds exactly when the user is known, the bytes
    /// decode, and `auth_id` is fresh; a colliding `auth_id` is an internal
    /// fault, never a silent overwrite.
    pub fn challenge_with(
        &mut self,
        user: &String,
        r1_bytes: &Vec<u8>,
        r2_bytes: &Vec<u8>,
        c: u64,
        auth_id: String,
    ) -> (r: Result<(), AuthError>)
        requires
            old(self).wf(),
        ensures
            final(self).wf(),
            final(self).params == old(self).params,
            match r {
                Ok(()) => {
                    &&& old(self).users().contains_key(user@)
                    &&& fits_word(be_val(r1_bytes@))
                    &&& fits_word(be_val(r2_bytes@))
                    &&& !old(self).auths().contains_key(auth_id@)
                    &&& final(self).users() == old(self).users().insert(
                        user@,
                        (UserRecord {
                            y1: old(self).users()[user@].y1,
                            y2: old(self).users()[user@].y2,
                            r1: be_val(r1_bytes@),
                            r2: be_val(r2_bytes@),
                            c: c as nat,
                            session_id: old(self).users()[user@].session_id,
                        }),
                    )
                    &&& final(self).auths() == old(self).auths().insert(auth_id@, user@)
                },
                Err(e) => {
                    &&& final(self).users() == old(self).users()
                    &&& final(self).auths() == old(self).auths()
                    &&& (e == AuthError::NotFound <==> !old(self).users().contains_key(user@))
                    &&& (e == AuthError::InvalidArgument <==> old(self).users().contains_key(
                        user@,
                    ) && !(fits_word(be_val(r1_bytes@)) && fits_word(be_val(r2_bytes@))))
                    &&& (e == AuthError::Internal <==> old(self).users().contains_key(user@)
                        && fits_word(be_val(r1_bytes@)) && fits_word(be_val(r2_bytes@)) && old(
                        self,
                    ).auths().contains_key(auth_id@))
                    &&& (e == AuthError::NotFound || e == AuthError::InvalidArgument || e
                        == AuthError::Internal)
                },
            },
    {
        let (y1, y2, session_id) = match self.user_info.get(user.as_str()) {
            Some(info) => (info.y1, info.y2, info.session_id.clone()),
            None => {
                return Err(AuthError::NotFound);
            },
        };
        let r1 = match decode(r1_bytes.as_slice()) {
            Ok(v) => v,
            Err(e) => {
                return Err(e);
            },
        };
        let r2 = match decode(r2_bytes.as_slice()) {
            Ok(v) => v,
            Err(e) => {
                return Err(e);
            },
        };
        if self.auth_info.contains_key(auth_id.as_str()) {
            return Err(AuthError::Internal);
        }
        let rec = UserInfo { y1, y2, r1, r2, c, session_id };
        self.user_info.insert(user.clone(), rec);
        self.auth_info.insert(auth_id, user.clone());
        proof {
            assert(self.users() =~= old(self).users().insert(
                user@,
                (UserRecord {
                    y1: old(self).users()[user@].y1,
                    y2: old(self).users()[user@].y2,
                    r1: be_val(r1_bytes@),
                    r2: be_val(r2_bytes@),
                    c: c as nat,
                    session_id: old(self).users()[user@].session_id,
                }),
            ));
            assert(self.auths() =~= old(self).auths().insert(auth_id@, user@));
        }
        Ok(())
    }

    /// Issues a challenge to a registered user: draws the challenge value
    /// and an unguessable identifier, stores the attempt, and returns the
    /// identifier with the challenge in canonical bytes. Fails NotFound
    /// exactly for an unknown user, InvalidArgument exactly for bytes that
    /// do not decode, and Internal only on an identifier collision; on every
    /// failure nothing changes.
    pub fn create_authentication_challenge(
        &mut self,
        user: &String,
        r1_bytes: &Vec<u8>,
        r2_bytes: &Vec<u8>,
    ) -> (r: Result<(String, Vec<u8>), AuthError>)
        requires
            old(self).wf(),
        ensures
            final(self).wf(),
            final(self).params == old(self).params,
            match r {
                Ok((auth_id, c_bytes)) => {
                    &&& old(self).users().contains_key(user@)
                    &&& fits_word(be_val(r1_bytes@))
                    &&& fits_word(be_val(r2_bytes@))
                    &&& auth_id@.len() == ID_LENGTH as nat
                    &&& is_identifier(auth_id@)
                    &&& !old(self).auths().contains_key(auth_id@)
                    &&& c_bytes@ == encode_spec(be_val(c_bytes@))
                    &&& be_val(c_bytes@) < old(self).params.q as nat
                    &&& final(self).users() == old(self).users().insert(
                        user@,
                        (UserRecord {
                            y1: old(self).users()[user@].y1,
                            y2: old(self).users()[user@].y2,
                            r1: be_val(r1_bytes@),
                            r2: be_val(r2_bytes@),
                            c: be_val(c_bytes@),
                            session_id: old(self).users()[user@].session_id,
                        }),
                    )
                    &&& final(self).auths() == old(self).auths().insert(auth_id@, user@)
                },
                Err(e) => {
                    &&& final(self).users() == old(self).users()
                    &&& final(self).auths() == old(self).auths()
                    &&& (e == AuthError::NotFound <==> !old(self).users().contains_key(user@))
                    &&& (e == AuthError::InvalidArgument <==> old(self).users().contains_key(
                        user@,
                    ) && !(fits_word(be_val(r1_bytes@)) && fits_word(be_val(r2_bytes@))))
                    &&& (e == AuthError::NotFound || e == AuthError::InvalidArgument || e
                        == AuthError::Internal)
                },
            },
            // Success is owed wherever no drawn identifier can collide: while
            // the challenge index holds no key of the drawn length and
            // alphabet, a known user with bytes that decode always gets a
            // challenge.
            (old(self).users().contains_key(user@) && fits_word(be_val(r1_bytes@)) && fits_word(
                be_val(r2_bytes@),
            ) && (forall|k: Seq<char>|
                old(self).auths().contains_key(k) ==> !(k.len() == ID_LENGTH as nat
                    && is_identifier(k)))) ==> r is Ok,
    {
        let c = random_scalar(self.params.q);
        let auth_id = random_identifier(ID_LENGTH);
        let c_bytes = encode(c);
        match self.challenge_with(user, r1_bytes, r2_bytes, c, auth_id.clone()) {
            Ok(()) => Ok((auth_id, c_bytes)),
            Err(e) => {
                proof {
                    if e == AuthError::Internal {
                        assert(old(self).auths().contains_key(auth_id@));
                    }
                }
                Err(e)
            },
        }
    }

    /// The verification transition, deterministic in the drawn session
    /// identifier: resolves the challenge identifier, checks the proof
    /// equation against the stored record, and on success stores and returns
    /// the session identifier. Fails NotFound exactly when the challenge
    /// identifier or the resolved user is unknown, InvalidArgument exactly
    /// when the response bytes do not decode, Unauthenticated exactly when
    /// the equation does not hold; on every failure nothing changes. The
    /// challenge index keeps its entry either way: the reference behaviour
    /// has no replay protection.
    pub fn verify_with(&mut self, auth_id: &String, s_bytes: &Vec<u8>, session_id: String) -> (r:
        Result<String, AuthError>)
        requires
            old(self).wf(),
        ensures
            final(self).wf(),
            final(self).params == old(self).params,
            final(self).auths() == old(self).auths(),
            match r {
                Ok(sid) => {
                    &&& old(self).auths().contains_key(auth_id@)
                    &&& old(self).users().contains_key(old(self).auths()[auth_id@])
                    &&& fits_word(be_val(s_bytes@))
                    &&& verifies(
                        old(self).params.p as int,
                        old(self).users()[old(self).auths()[auth_id@]].y1 as int,
                        old(self).users()[old(self).auths()[auth_id@]].y2 as int,
                        old(self).users()[old(self).auths()[auth_id@]].r1 as int,
                        old(self).users()[old(self).auths()[auth_id@]].r2 as int,
                        old(self).params.g as int,
                        old(self).params.h as int,
                        old(self).users()[old(self).auths()[auth_id@]].c as int,
                        be_val(s_bytes@) as int,
                    )
                    &&& sid@ == session_id@
                    &&& final(self).users() == old(self).users().insert(
                        old(self).auths()[auth_id@],
                        (UserRecord {
                            y1: old(self).users()[old(self).auths()[auth_id@]].y1,
                            y2: old(self).users()[old(self).auths()[auth_id@]].y2,
                            r1: old(self).users()[old(self).auths()[auth_id@]].r1,
                            r2: old(self).users()[old(self).auths()[auth_id@]].r2,
                            c: old(self).users()[old(self).auths()[auth_id@]].c,
                            session_id: session_id@,
                        }),
                    )
                },
                Err(e) => {
                    &&& final(self).users() == old(self).users()
                    &&& (e == AuthError::NotFound <==> (!old(self).auths().contains_key(auth_id@)
                        || !old(self).users().contains_key(old(self).auths()[auth_id@])))
                    &&& (e == AuthError::InvalidArgument <==> old(self).auths().contains_key(
                        auth_id@,
                    ) && old(self).users().contains_key(old(self).auths()[auth_id@])
                        && !fits_word(be_val(s_bytes@)))
                    &&& (e == AuthError::Unauthenticated <==> old(self).auths().contains_key(
                        auth_id@,
                    ) && old(self).users().contains_key(old(self).auths()[auth_id@]) && fits_word(
                        be_val(s_bytes@),
                    ) && !verifies(
                        old(self).params.p as int,
                        old(self).users()[old(self).auths()[auth_id@]].y1 as int,
                        old(self).users()[old(self).auths()[auth_id@]].y2 as int,
                        old(self).users()[old(self).auths()[auth_id@]].r1 as int,
                        old(self).users()[old(self).auths()[auth_id@]].r2 as int,
                        old(self).params.g as int,
                        old(self).params.h as int,
                        old(self).users()[old(self).auths()[auth_id@]].c as int,
                        be_val(s_bytes@) as int,
                    ))
                    &&& (e == AuthError::NotFound || e == AuthError::InvalidArgument || e
                        == AuthError::Unauthenticated)
                },
            },
    {
        let user = match self.auth_info.get(auth_id.as_str()) {
            Some(u) => u.clone(),
            None => {
                return Err(AuthError::NotFound);
            },
        };
        let (y1, y2, r1, r2, c) = match self.user_info.get(user.as_str()) {
            Some(info) => (info.y1, info.y2, info.r1, info.r2, info.c),
            None => {
                return Err(AuthError::NotFound);
            },
        };
        let s = match decode(s_bytes.as_slice()) {
            Ok(v) => v,
            Err(e) => {
                return Err(e);
            },
        };
        let ok = verify_proof(self.params.p, y1, y2, r1, r2, self.params.g, self.params.h, c, s);
        if !ok {
            return Err(AuthError::Unauthenticated);
        }
        let rec = UserInfo { y1, y2, r1, r2, c, session_id: session_id.clone() };
        self.user_info.insert(user, rec);
        proof {
            assert(self.users() =~= old(self).users().insert(
                old(self).auths()[auth_id@],
                (UserRecord {
                    y1: old(self).users()[old(self).auths()[auth_id@]].y1,
                    y2: old(self).users()[old(self).auths()[auth_id@]].y2,
                    r1: old(self).users()[old(self).auths()[auth_id@]].r1,
                    r2: old(self).users()[old(self).auths()[auth_id@]].r2,
                    c: old(self).users()[old(self).auths()[auth_id@]].c,
                    session_id: session_id@,
                }),
            ));
            assert(self.auths() =~= old(self).auths());
        }
        Ok(session_id)
    }

    /// Resolves a pending challenge and verifies the submitted response: on
    /// success draws a fresh session identifier, stores it in the user's
    /// record and returns it. The failure cases are exactly those of the
    /// verification transition.
    pub fn verify_authentication(&mut self, auth_id: &String, s_bytes: &Vec<u8>) -> (r: Result<
        String,
        AuthError,
    >)
        requires
            old(self).wf(),
        ensures
            final(self).wf(),
            final(self).params == old(self).params,
            final(self).auths() == old(self).auths(),
            match r {
                Ok(sid) => {
                    &&& old(self).auths().contains_key(auth_id@)
                    &&& old(self).users().contains_key(old(self).auths()[auth_id@])
                    &&& fits_word(be_val(s_bytes@))
                    &&& verifies(
                        old(self).params.p as int,
                        old(self).users()[old(self).auths()[auth_id@]].y1 as int,
                        old(self).users()[old(self).auths()[auth_id@]].y2 as int,
                        old(self).users()[old(self).auths()[auth_id@]].r1 as int,
                        old(self).users()[old(self).auths()[auth_id@]].r2 as int,
                        old(self).params.g as int,
                        old(self).params.h as int,
                        old(self).users()[old(self).auths()[auth_id@]].c as int,
                        be_val(s_bytes@) as int,
                    )
                    &&& sid@.len() == ID_LENGTH as nat
                    &&& is_identifier(sid@)
                    &&& final(self).users() == old(self).users().insert(
                        old(self).auths()[auth_id@],
                        (UserRecord {
                            y1: old(self).users()[old(self).auths()[auth_id@]].y1,
                            y2: old(self).users()[old(self).auths()[auth_id@]].y2,
                            r1: old(self).users()[old(self).auths()[auth_id@]].r1,
                            r2: old(self).users()[old(self).auths()[auth_id@]].r2,
                            c: old(self).users()[old(self).auths()[auth_id@]].c,
                            session_id: sid@,
                        }),
                    )
                },
                Err(e) => {
                    &&& final(self).users() == old(self).users()
                    &&& (e == AuthError::NotFound <==> (!old(self).auths().contains_key(auth_id@)
                        || !old(self).users().contains_key(old(self).auths()[auth_id@])))
                    &&& (e == AuthError::InvalidArgument <==> old(self).auths().contains_key(
                        auth_id@,
                    ) && old(self).users().contains_key(old(self).auths()[auth_id@])
                        && !fits_word(be_val(s_bytes@)))
                    &&& (e == AuthError::Unauthenticated <==> old(self).auths().contains_key(
                        auth_id@,
                    ) && old(self).users().contains_key(old(self).auths()[auth_id@]) && fits_word(
                        be_val(s_bytes@),
                    ) && !verifies(
                        old(self).params.p as int,
                        old(self).users()[old(self).auths()[auth_id@]].y1 as int,
                        old(self).users()[old(self).auths()[auth_id@]].y2 as int,
                        old(self).users()[old(self).auths()[auth_id@]].r1 as int,
                        old(self).users()[old(self).auths()[auth_id@]].r2 as int,
                        old(self).params.g as int,
                        old(self).params.h as int,
                        old(self).users()[old(self).auths()[auth_id@]].c as int,
                        be_val(s_bytes@) as int,
                    ))
                    &&& (e == AuthError::NotFound || e == AuthError::InvalidArgument || e
                        == AuthError::Unauthenticated)
                },
            },
    {
        let session_id = random_identifier(ID_LENGTH);
        self.verify_with(auth_id, s_bytes, session_id)
    }

    /// Looks a user's record up, for a host or a test to inspect stored
    /// state.
    pub fn get_user_info(&self, user: &String) -> (r: Option<&UserInfo>)
        ensures
            match r {
                Some(info) => self.users().contains_key(user@) && info@ == self.users()[user@],
                None => !self.users().contains_key(user@),
            },
    {
        self.user_info.get(user.as_str())
    }
}

/// Users are isolated from one another: every transition above rewrites the
/// record map by inserting under the one identifier it concerns, and such an
/// insert leaves every other user's record exactly as it was.
pub proof fn lemma_user_isolation(
    m: Map<Seq<char>, UserRecord>,
    user: Seq<char>,
    rec: UserRecord,
    other: Seq<char>,
)
    requires
        user != other,
    ensures
        m.insert(user, rec).contains_key(other) == m.contains_key(other),
        m.contains_key(other) ==> m.insert(user, rec)[other] == m[other],
{
}

} // verus!
