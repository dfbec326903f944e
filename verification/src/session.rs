//! Session authority: login issues an access token and, for a long session,
//! a refresh token whose rotation id overwrites the identity's previous one;
//! rotation exchanges a valid refresh token for a fresh pair and invalidates
//! the presented token. Every failure of the credential path leaves through
//! one fail-slowly exit, so an unknown shortcode and a wrong password are the
//! same error with the same delay policy.

use vstd::prelude::*;
use vstd::string::StringExecFns;
use crate::claims::{AccessClaims, AccessClaimsView, RefreshClaims, RefreshClaimsView};
use crate::codec::{
    access_token_for, check_refresh, issue_access, issue_refresh, refresh_token_for,
    spec_check_refresh, KeyConfig, TokenCheck,
};
use crate::credentials::{burn_decoy_check, hash_parses, password_matches, verify, CredentialCheck};
use crate::store::{
    has_id, has_shortcode, idx_by_id, idx_by_shortcode, lemma_id_index_unique,
    lemma_shortcode_index_unique, wf, IdentityView, UserStore,
};

verus! {

/// Lifetime of an access token, in seconds.
pub const ACCESS_TOKEN_SECS: u64 = 3600;

/// Lifetime of a refresh token, in seconds: twelve weeks.
pub const REFRESH_TOKEN_SECS: u64 = 7257600;

/// The latest instant the issuing clock may report, so that no computed
/// expiry overflows.
pub const NOW_LIMIT: u64 = u64::MAX - REFRESH_TOKEN_SECS;

/// Login credentials as presented by a client.
pub struct UserAuth {
    pub shortcode: String,
    pub password: String,
}

pub ghost struct UserAuthView {
    pub shortcode: Seq<char>,
    pub password: Seq<char>,
}

impl View for UserAuth {
    type V = UserAuthView;

    open spec fn view(&self) -> UserAuthView {
        UserAuthView { shortcode: self.shortcode@, password: self.password@ }
    }
}

/// The one externally visible error taxonomy.
#[derive(Clone, Copy, PartialEq, Eq, Structural, Debug)]
pub enum AuthError {
    /// Lookup or verification failed; reported identically for an unknown
    /// shortcode and a wrong password.
    WrongCredentials,
    /// The client omitted a required input; reported without delay.
    MissingCredentials,
    /// The server failed to mint or persist a token.
    TokenCreation,
    /// Signature, structure, expiry or rotation-id mismatch.
    InvalidToken,
}

impl AuthError {
    /// The HTTP status this error is reported under at the API boundary.
    pub fn status_code(&self) -> (code: u16)
        ensures
            code == match *self {
                AuthError::WrongCredentials => 401u16,
                AuthError::MissingCredentials => 400u16,
                AuthError::InvalidToken => 400u16,
                AuthError::TokenCreation => 500u16,
            },
    {
        match self {
            AuthError::WrongCredentials => 401,
            AuthError::MissingCredentials => 400,
            AuthError::InvalidToken => 400,
            AuthError::TokenCreation => 500,
        }
    }
}

/// A failed login: the error, and how long the caller must wait before
/// responding, so that failure causes stay indistinguishable.
#[derive(Debug)]
pub struct AuthFailure {
    pub error: AuthError,
    pub delay_ms: u64,
}

/// The successful login or rotation response.
pub struct AuthBody {
    pub access_token: String,
    pub refresh_token: Option<String>,
    pub token_type: String,
}

pub ghost struct AuthBodyView {
    pub access_token: Seq<char>,
    pub refresh_token: Option<Seq<char>>,
    pub token_type: Seq<char>,
}

impl View for AuthBody {
    type V = AuthBodyView;

    open spec fn view(&self) -> AuthBodyView {
        AuthBodyView {
            access_token: self.access_token@,
            refresh_token: match self.refresh_token {
                Option::Some(t) => Option::Some(t@),
                Option::None => Option::None,
            },
            token_type: self.token_type@,
        }
    }
}

/// The token-type label of every response.
pub open spec fn bearer_type() -> Seq<char> {
    seq!['B', 'e', 'a', 'r', 'e', 'r', ' ']
}

impl AuthBody {
    pub fn new(access_token: String, refresh_token: Option<String>) -> (r: AuthBody)
        ensures
            r@.access_token == access_token@,
            r@.refresh_token == match refresh_token {
                Option::Some(t) => Option::Some(t@),
                Option::None => Option::None::<Seq<char>>,
            },
            r@.token_type == bearer_type(),
    {
        proof {
            reveal_strlit("Bearer ");
        }
        let token_type = String::from_str("Bearer ");
        proof {
            assert(token_type@ =~= bearer_type());
        }
        AuthBody { access_token, refresh_token, token_type }
    }
}

/// Relies on rand's `random_range`: a draw uniform over the inclusive range
/// it is given.
#[verifier::external_body]
fn random_delay_ms() -> (r: u64)
    ensures
        100 <= r <= 500,
{
    rand::random_range(100u64..=500u64)
}

/// Relies on uuid's `Uuid::new_v4` and `as_u128`: a freshly drawn random
/// id. Nothing is promised of its value.
#[verifier::external_body]
fn random_token_id() -> (r: u128)
{
    uuid::Uuid::new_v4().as_u128()
}

/// Relies on chrono's `Utc::now` and `DateTime::timestamp`: the wall clock,
/// as seconds since the Unix epoch. Nothing is promised of its value.
#[verifier::external_body]
fn unix_now() -> (r: i64)
{
    chrono::Utc::now().timestamp()
}

/// The wall clock, clamped into the domain the issuing functions accept.
pub fn now_seconds() -> (r: u64)
    ensures
        r <= NOW_LIMIT,
{
    let t = unix_now();
    if t < 0 {
        0
    } else {
        let u = t as u64;
        if u > NOW_LIMIT {
            NOW_LIMIT
        } else {
            u
        }
    }
}

/// A rotation id that is never the one it replaces.
fn fresh_distinct_id(avoid: Option<u128>) -> (r: u128)
    ensures
        Some(r) != avoid,
{
    let r = random_token_id();
    match avoid {
        Option::None => r,
        Option::Some(a) => {
            if r == a {
                if a < u128::MAX {
                    a + 1
                } else {
                    0
                }
            } else {
                r
            }
        },
    }
}

/// The single exit of every credential failure: the uniform error, plus the
/// randomized delay the caller must serve before responding.
fn fail_slowly() -> (r: AuthFailure)
    ensures
        r.error == AuthError::WrongCredentials,
        100 <= r.delay_ms <= 500,
{
    AuthFailure { error: AuthError::WrongCredentials, delay_ms: random_delay_ms() }
}

/// The client omitted a required input.
pub open spec fn credentials_missing(a: UserAuthView) -> bool {
    a.shortcode.len() == 0 || a.password.len() == 0
}

/// The error a failed login reports. It is computed from the presence of
/// the inputs alone: whether the shortcode was unknown or the password
/// wrong never shows in the result.
pub open spec fn login_error(a: UserAuthView) -> AuthError {
    if credentials_missing(a) {
        AuthError::MissingCredentials
    } else {
        AuthError::WrongCredentials
    }
}

/// Exactly when a login succeeds: inputs present, the shortcode resolves,
/// and the password matches the stored hash (which must itself be sound).
pub open spec fn login_accepts(s: Seq<IdentityView>, a: UserAuthView) -> bool {
    &&& !credentials_missing(a)
    &&& has_shortcode(s, a.shortcode)
    &&& hash_parses(s[idx_by_shortcode(s, a.shortcode)].password_hash)
    &&& password_matches(a.password, s[idx_by_shortcode(s, a.shortcode)].password_hash)
}

/// The access claims issued to an identity at `now`.
pub open spec fn access_claims_for(u: IdentityView, now: u64) -> AccessClaimsView
    recommends
        now <= NOW_LIMIT,
{
    AccessClaimsView {
        sub: u.shortcode,
        exp: (now + ACCESS_TOKEN_SECS) as u64,
        user_id: u.id,
        name: u.display_name,
        tier: u.tier,
        admin: u.is_admin,
    }
}

/// The refresh claims issued to an identity at `now` under rotation id
/// `jti`.
pub open spec fn refresh_claims_for(u: IdentityView, jti: u128, now: u64) -> RefreshClaimsView
    recommends
        now <= NOW_LIMIT,
{
    RefreshClaimsView {
        sub: u.shortcode,
        exp: (now + REFRESH_TOKEN_SECS) as u64,
        jti,
        user_id: u.id,
    }
}

/// Everything a successful login guarantees: the access token carries the
/// identity's claims; with a long session the store's rotation id is fresh,
/// overwritten in one place, and the refresh token carries exactly it; the
/// last-login time is recorded.
pub open spec fn login_ok_post(
    s0: Seq<IdentityView>,
    s1: Seq<IdentityView>,
    a: UserAuthView,
    akey: Seq<u8>,
    rkey: Seq<u8>,
    keep_login: bool,
    now: u64,
    b: AuthBodyView,
) -> bool {
    let i = idx_by_shortcode(s0, a.shortcode);
    let u = s0[i];
    &&& access_token_for(b.access_token, akey, access_claims_for(u, now))
    &&& b.token_type == bearer_type()
    &&& if keep_login {
        &&& s1[i].current_refresh_id is Some
        &&& s1[i].current_refresh_id != u.current_refresh_id
        &&& s1 == s0.update(
            i,
            IdentityView {
                current_refresh_id: s1[i].current_refresh_id,
                last_login: Some(now),
                ..u
            },
        )
        &&& b.refresh_token matches Some(rt) && refresh_token_for(
            rt,
            rkey,
            refresh_claims_for(u, s1[i].current_refresh_id->0, now),
        )
    } else {
        &&& s1 == s0.update(i, IdentityView { last_login: Some(now), ..u })
        &&& b.refresh_token is None
    }
}

/// Login. Missing input fails fast; an unknown shortcode and a wrong
/// password fail identically, after a decoy verification and with the same
/// randomized delay; success issues an access token and, for a long
/// session, a refresh token under a freshly overwritten rotation id.
pub fn authenticate(
    store: &mut UserStore,
    keys: &KeyConfig,
    auth: &UserAuth,
    keep_login: bool,
    now: u64,
) -> (r: Result<AuthBody, AuthFailure>)
    requires
        wf(old(store)@),
        now <= NOW_LIMIT,
    ensures
        wf(final(store)@),
        r is Ok <==> login_accepts(old(store)@, auth@),
        r matches Err(f) ==> final(store)@ == old(store)@ && f.error == login_error(auth@),
        r matches Err(f) ==> (if credentials_missing(auth@) {
            f.delay_ms == 0
        } else {
            100 <= f.delay_ms <= 500
        }),
        r matches Ok(b) ==> login_ok_post(
            old(store)@,
            final(store)@,
            auth@,
            keys.access_key@,
            keys.refresh_key@,
            keep_login,
            now,
            b@,
        ),
{
    if auth.shortcode.as_str().is_empty() || auth.password.as_str().is_empty() {
        return Err(AuthFailure { error: AuthError::MissingCredentials, delay_ms: 0 });
    }
    let found = store.find_by_shortcode(auth.shortcode.as_str());
    match found {
        Option::None => {
            burn_decoy_check(auth.password.as_str());
            Err(fail_slowly())
        },
        Option::Some(i) => {
            proof {
                lemma_shortcode_index_unique(old(store)@, i as int);
            }
            let u = store.get(i);
            let outcome = verify(auth.password.as_str(), u.password_hash.as_str());
            match outcome {
                CredentialCheck::Accepted => {
                    let id = u.id;
                    let prior = u.current_refresh_id;
                    let claims = AccessClaims {
                        sub: u.shortcode.clone(),
                        exp: now + ACCESS_TOKEN_SECS,
                        user_id: id,
                        name: u.display_name.clone(),
                        tier: u.tier,
                        admin: u.is_admin,
                    };
                    let refresh_sub = u.shortcode.clone();
                    let access_token = issue_access(&claims, &keys.access_key);
                    proof {
                        assert(claims@ == access_claims_for(old(store)@[i as int], now));
                    }
                    if keep_login {
                        let jti = fresh_distinct_id(prior);
                        let updated = store.update_refresh_id(id, jti);
                        proof {
                            assert(has_id(old(store)@, id));
                            assert(updated);
                        }
                        let _touched = store.touch_last_login(id, now);
                        let rclaims = RefreshClaims {
                            sub: refresh_sub,
                            exp: now + REFRESH_TOKEN_SECS,
                            jti,
                            user_id: id,
                        };
                        let refresh_token = issue_refresh(&rclaims, &keys.refresh_key);
                        proof {
                            let s0 = old(store)@;
                            let mid = s0.update(
                                i as int,
                                IdentityView { current_refresh_id: Some(jti), ..s0[i as int] },
                            );
                            lemma_id_index_unique(s0, i as int);
                            lemma_id_index_unique(mid, i as int);
                            assert(final(store)@ =~= s0.update(
                                i as int,
                                IdentityView {
                                    current_refresh_id: Some(jti),
                                    last_login: Some(now),
                                    ..s0[i as int]
                                },
                            ));
                            assert(rclaims@ == refresh_claims_for(s0[i as int], jti, now));
                        }
                        Ok(AuthBody::new(access_token, Some(refresh_token)))
                    } else {
                        let _touched = store.touch_last_login(id, now);
                        proof {
                            lemma_id_index_unique(old(store)@, i as int);
                        }
                        Ok(AuthBody::new(access_token, None))
                    }
                },
                _ => Err(fail_slowly()),
            }
        },
    }
}

/// Exactly when a rotation succeeds: the token validates under the refresh
/// key at `now`, its subject identity exists, and its rotation id is the
/// identity's current one.
pub open spec fn rotate_accepts(
    s: Seq<IdentityView>,
    rkey: Seq<u8>,
    t: Seq<char>,
    now: u64,
) -> bool {
    match spec_check_refresh(t, rkey, now) {
        TokenCheck::Valid(c) => has_id(s, c.user_id) && s[idx_by_id(s, c.user_id)]
            .current_refresh_id == Some(c.jti),
        _ => false,
    }
}

/// Everything a successful rotation guarantees: the store's rotation id is
/// overwritten with a fresh one before any token is returned, the new pair
/// is derived from the stored identity, and the refresh token carries
/// exactly the new id.
pub open spec fn rotate_ok_post(
    s0: Seq<IdentityView>,
    s1: Seq<IdentityView>,
    akey: Seq<u8>,
    rkey: Seq<u8>,
    t: Seq<char>,
    now: u64,
    b: AuthBodyView,
) -> bool {
    spec_check_refresh(t, rkey, now) matches TokenCheck::Valid(c) && {
        let i = idx_by_id(s0, c.user_id);
        let u = s0[i];
        &&& s1[i].current_refresh_id is Some
        &&& s1[i].current_refresh_id != Some(c.jti)
        &&& s1 == s0.update(i, IdentityView { current_refresh_id: s1[i].current_refresh_id, ..u })
        &&& access_token_for(b.access_token, akey, access_claims_for(u, now))
        &&& b.refresh_token matches Some(rt) && refresh_token_for(
            rt,
            rkey,
            refresh_claims_for(u, s1[i].current_refresh_id->0, now),
        )
        &&& b.token_type == bearer_type()
    }
}

/// Rotation. The presented refresh token must validate and carry the
/// identity's current rotation id; then a fresh id is persisted first and a
/// new access and refresh pair is returned. A replayed or superseded token
/// is refused without touching the store.
pub fn rotate(store: &mut UserStore, keys: &KeyConfig, token: &str, now: u64) -> (r: Result<
    AuthBody,
    AuthError,
>)
    requires
        wf(old(store)@),
        now <= NOW_LIMIT,
    ensures
        wf(final(store)@),
        r is Ok <==> rotate_accepts(old(store)@, keys.refresh_key@, token@, now),
        r matches Err(e) ==> final(store)@ == old(store)@ && e == (
        match spec_check_refresh(token@, keys.refresh_key@, now) {
            TokenCheck::Valid(c) => if has_id(old(store)@, c.user_id) {
                AuthError::InvalidToken
            } else {
                AuthError::TokenCreation
            },
            _ => AuthError::InvalidToken,
        }),
        r matches Ok(b) ==> rotate_ok_post(
            old(store)@,
            final(store)@,
            keys.access_key@,
            keys.refresh_key@,
            token@,
            now,
            b@,
        ),
{
    let checked = check_refresh(token, &keys.refresh_key, now);
    match checked {
        TokenCheck::Valid(c) => {
            let found = store.find_by_id(c.user_id);
            match found {
                Option::None => Err(AuthError::TokenCreation),
                Option::Some(i) => {
                    proof {
                        lemma_id_index_unique(old(store)@, i as int);
                    }
                    let u = store.get(i);
                    let current_matches = match u.current_refresh_id {
                        Option::Some(j) => j == c.jti,
                        Option::None => false,
                    };
                    if !current_matches {
                        Err(AuthError::InvalidToken)
                    } else {
                        let id = u.id;
                        let prior = u.current_refresh_id;
                        let claims = AccessClaims {
                            sub: u.shortcode.clone(),
                            exp: now + ACCESS_TOKEN_SECS,
                            user_id: id,
                            name: u.display_name.clone(),
                            tier: u.tier,
                            admin: u.is_admin,
                        };
                        let refresh_sub = u.shortcode.clone();
                        let jti2 = fresh_distinct_id(prior);
                        let updated = store.update_refresh_id(id, jti2);
                        proof {
                            assert(updated);
                        }
                        let access_token = issue_access(&claims, &keys.access_key);
                        let rclaims = RefreshClaims {
                            sub: refresh_sub,
                            exp: now + REFRESH_TOKEN_SECS,
                            jti: jti2,
                            user_id: id,
                        };
                        let refresh_token = issue_refresh(&rclaims, &keys.refresh_key);
                        proof {
                            let s0 = old(store)@;
                            assert(claims@ == access_claims_for(s0[i as int], now));
                            assert(rclaims@ == refresh_claims_for(s0[i as int], jti2, now));
                            assert(final(store)@ =~= s0.update(
                                i as int,
                                IdentityView { current_refresh_id: Some(jti2), ..s0[i as int] },
                            ));
                        }
                        Ok(AuthBody::new(access_token, Some(refresh_token)))
                    }
                },
            }
        },
        _ => Err(AuthError::InvalidToken),
    }
}

/// Rotation as the refresh endpoint sees it: the token arrives as a bearer
/// authorization header. An absent header or one without the scheme label
/// is refused as missing credentials before any state is touched.
pub fn rotate_from_header(
    store: &mut UserStore,
    keys: &KeyConfig,
    header: Option<&str>,
    now: u64,
) -> (r: Result<AuthBody, AuthError>)
    requires
        wf(old(store)@),
        now <= NOW_LIMIT,
    ensures
        wf(final(store)@),
        header is None ==> (r matches Err(e) && e == AuthError::MissingCredentials && final(store)@ == old(store)@),
        header matches Some(h) ==> match crate::guard::bearer_of(h@) {
            Option::None => r matches Err(e) && e == AuthError::MissingCredentials
                && final(store)@ == old(store)@,
            Option::Some(t) => {
                &&& (r is Ok <==> rotate_accepts(old(store)@, keys.refresh_key@, t, now))
                &&& r matches Err(e) ==> final(store)@ == old(store)@ && e == (
                match spec_check_refresh(t, keys.refresh_key@, now) {
                    TokenCheck::Valid(c) => if has_id(old(store)@, c.user_id) {
                        AuthError::InvalidToken
                    } else {
                        AuthError::TokenCreation
                    },
                    _ => AuthError::InvalidToken,
                })
                &&& r matches Ok(b) ==> rotate_ok_post(
                    old(store)@,
                    final(store)@,
                    keys.access_key@,
                    keys.refresh_key@,
                    t,
                    now,
                    b@,
                )
            },
        },
{
    match header {
        Option::None => Err(AuthError::MissingCredentials),
        Option::Some(h) => {
            match crate::guard::bearer_token(h) {
                Option::None => Err(AuthError::MissingCredentials),
                Option::Some(t) => rotate(store, keys, t, now),
            }
        },
    }
}

} // verus!
