use argon2::{Argon2, PasswordHasher};
use session_auth::claims::RefreshClaims;
use session_auth::codec::{check_access, check_refresh, issue_refresh, KeyConfig, TokenCheck};
use session_auth::session::{
    authenticate, rotate, rotate_from_header, AuthError, UserAuth, REFRESH_TOKEN_SECS,
};
use session_auth::store::{Identity, UserStore};

fn hash_of(pw: &str) -> String {
    Argon2::default()
        .hash_password_with_salt(pw.as_bytes(), b"0123456789abcdef")
        .unwrap()
        .to_string()
}

fn keys() -> KeyConfig {
    KeyConfig::new(b"access-key-one".to_vec(), b"refresh-key-two".to_vec())
}

fn seeded_store() -> UserStore {
    let mut s = UserStore::new();
    let ok = s.add_identity(Identity {
        id: 7,
        shortcode: "alice".to_string(),
        password_hash: hash_of("correct"),
        display_name: "Alice Li".to_string(),
        tier: 1,
        is_admin: false,
        current_refresh_id: None,
        last_login: None,
    });
    assert!(ok);
    s
}

fn login_long(store: &mut UserStore, keys: &KeyConfig, now: u64) -> (String, String) {
    let auth = UserAuth { shortcode: "alice".to_string(), password: "correct".to_string() };
    let body = authenticate(store, keys, &auth, true, now).expect("login should succeed");
    let refresh = body.refresh_token.expect("long session must include a refresh token");
    (body.access_token, refresh)
}

#[test]
fn presenting_a_rotated_token_again_is_refused() {
    let keys = keys();
    let mut store = seeded_store();
    let (_, r0) = login_long(&mut store, &keys, 1000);

    let first = rotate(&mut store, &keys, &r0, 1010);
    assert!(first.is_ok());

    let second = rotate(&mut store, &keys, &r0, 1020);
    assert_eq!(second.err().expect("replay must fail"), AuthError::InvalidToken);
}

#[test]
fn replay_fails_even_when_the_new_token_is_never_used() {
    let keys = keys();
    let mut store = seeded_store();
    let (_, r0) = login_long(&mut store, &keys, 1000);

    let body = rotate(&mut store, &keys, &r0, 1010).expect("first rotation must succeed");
    // drop the fresh pair unused
    drop(body);
    let replay = rotate(&mut store, &keys, &r0, 1011);
    assert_eq!(replay.err().expect("replay must fail"), AuthError::InvalidToken);
}

#[test]
fn rotation_yields_a_usable_fresh_pair() {
    let keys = keys();
    let mut store = seeded_store();
    let (_, r0) = login_long(&mut store, &keys, 1000);

    let body = rotate(&mut store, &keys, &r0, 2000).expect("rotation must succeed");
    assert_eq!(body.token_type, "Bearer ");
    match check_access(&body.access_token, &keys.access_key, 2001) {
        TokenCheck::Valid(c) => {
            assert_eq!(c.sub, "alice");
            assert_eq!(c.user_id, 7);
        },
        _ => panic!("rotated access token must validate"),
    }
    let r1 = body.refresh_token.expect("rotation always returns a refresh token");
    let next = rotate(&mut store, &keys, &r1, 2010);
    assert!(next.is_ok());
}

#[test]
fn new_long_session_invalidates_the_previous_refresh_token() {
    let keys = keys();
    let mut store = seeded_store();
    let (_, r0) = login_long(&mut store, &keys, 1000);
    let (_, r1) = login_long(&mut store, &keys, 1100);

    let old = rotate(&mut store, &keys, &r0, 1200);
    assert_eq!(old.err().expect("superseded token must fail"), AuthError::InvalidToken);

    let fresh = rotate(&mut store, &keys, &r1, 1200);
    assert!(fresh.is_ok());
}

#[test]
fn rotation_rederives_tier_and_admin_from_the_store() {
    let keys = keys();
    let mut store = seeded_store();
    let (_, r0) = login_long(&mut store, &keys, 1000);

    store.users[0].tier = 2;
    store.users[0].is_admin = true;

    let body = rotate(&mut store, &keys, &r0, 1010).expect("rotation must succeed");
    match check_access(&body.access_token, &keys.access_key, 1011) {
        TokenCheck::Valid(c) => {
            assert_eq!(c.tier, 2);
            assert!(c.admin);
        },
        _ => panic!("rotated access token must validate"),
    }
}

#[test]
fn token_of_an_unknown_identity_is_an_operational_error() {
    let keys = keys();
    let mut store = seeded_store();
    let ghost_claims = RefreshClaims {
        sub: "ghost".to_string(),
        exp: 5000,
        jti: 1,
        user_id: 999,
    };
    let t = issue_refresh(&ghost_claims, &keys.refresh_key);
    let r = rotate(&mut store, &keys, &t, 1000);
    assert_eq!(r.err().expect("unknown identity must fail"), AuthError::TokenCreation);
}

#[test]
fn expired_refresh_token_is_invalid() {
    let keys = keys();
    let mut store = seeded_store();
    let (_, r0) = login_long(&mut store, &keys, 1000);

    let at_expiry = 1000 + REFRESH_TOKEN_SECS;
    let r = rotate(&mut store, &keys, &r0, at_expiry);
    assert_eq!(r.err().expect("expired token must fail"), AuthError::InvalidToken);
    match check_refresh(&r0, &keys.refresh_key, at_expiry) {
        TokenCheck::Expired => {},
        _ => panic!("the codec must report expiry internally"),
    }
}

#[test]
fn rotation_via_header_requires_a_bearer_credential() {
    let keys = keys();
    let mut store = seeded_store();
    let (_, r0) = login_long(&mut store, &keys, 1000);

    let none = rotate_from_header(&mut store, &keys, None, 1010);
    assert_eq!(none.err().expect("absent header must fail"), AuthError::MissingCredentials);

    let unlabelled = rotate_from_header(&mut store, &keys, Some(&r0), 1010);
    assert_eq!(
        unlabelled.err().expect("missing scheme must fail"),
        AuthError::MissingCredentials
    );

    let header = format!("Bearer {}", r0);
    let ok = rotate_from_header(&mut store, &keys, Some(&header), 1010);
    assert!(ok.is_ok());
}

#[test]
fn concurrent_style_double_rotation_lets_exactly_one_win() {
    let keys = keys();
    let mut store = seeded_store();
    let (_, r0) = login_long(&mut store, &keys, 1000);

    // two requests race on the same presented token; the store decides:
    // whoever writes first wins, the loser observes the mismatch
    let first = rotate(&mut store, &keys, &r0, 1010);
    let second = rotate(&mut store, &keys, &r0, 1010);
    assert!(first.is_ok());
    assert_eq!(second.err().expect("loser must fail"), AuthError::InvalidToken);
}
