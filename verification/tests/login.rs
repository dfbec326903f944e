use argon2::{Argon2, PasswordHasher};
use session_auth::codec::{check_access, KeyConfig, TokenCheck};
use session_auth::session::{authenticate, AuthError, UserAuth, ACCESS_TOKEN_SECS};
use session_auth::store::{Identity, UserStore};

fn hash_of(pw: &str) -> String {
    Argon2::default()
        .hash_password_with_salt(pw.as_bytes(), b"0123456789abcdef")
        .unwrap()
        .to_string()
}

fn keys() -> KeyConfig {
    KeyConfig::new(b"access-key-one".to_vec(), b"refresh-key-two".to_vec())
}

fn alice() -> Identity {
    Identity {
        id: 7,
        shortcode: "alice".to_string(),
        password_hash: hash_of("correct"),
        display_name: "Alice Li".to_string(),
        tier: 1,
        is_admin: false,
        current_refresh_id: None,
        last_login: None,
    }
}

fn store_with(users: Vec<Identity>) -> UserStore {
    let mut s = UserStore::new();
    for u in users {
        assert!(s.add_identity(u));
    }
    s
}

#[test]
fn correct_password_yields_decodable_access_token() {
    let keys = keys();
    let mut store = store_with(vec![alice()]);
    let auth = UserAuth { shortcode: "alice".to_string(), password: "correct".to_string() };
    let body = authenticate(&mut store, &keys, &auth, false, 1000).unwrap_or_else(|_| {
        panic!("login should succeed");
    });
    assert_eq!(body.token_type, "Bearer ");
    assert!(body.refresh_token.is_none());
    match check_access(&body.access_token, &keys.access_key, 1000) {
        TokenCheck::Valid(c) => {
            assert_eq!(c.sub, "alice");
            assert_eq!(c.user_id, 7);
            assert_eq!(c.name, "Alice Li");
            assert_eq!(c.tier, 1);
            assert!(!c.admin);
            assert_eq!(c.exp, 1000 + ACCESS_TOKEN_SECS);
        },
        _ => panic!("issued token must validate"),
    }
}

#[test]
fn admin_flag_and_tier_survive_the_token() {
    let keys = keys();
    let mut admin = alice();
    admin.is_admin = true;
    admin.tier = 2;
    let mut store = store_with(vec![admin]);
    let auth = UserAuth { shortcode: "alice".to_string(), password: "correct".to_string() };
    let body = authenticate(&mut store, &keys, &auth, false, 50).expect("login should succeed");
    match check_access(&body.access_token, &keys.access_key, 51) {
        TokenCheck::Valid(c) => {
            assert!(c.admin);
            assert_eq!(c.tier, 2);
        },
        _ => panic!("issued token must validate"),
    }
}

#[test]
fn empty_shortcode_fails_fast_without_delay() {
    let keys = keys();
    let mut store = store_with(vec![alice()]);
    let auth = UserAuth { shortcode: String::new(), password: "correct".to_string() };
    let f = authenticate(&mut store, &keys, &auth, false, 1000).err().expect("must fail");
    assert_eq!(f.error, AuthError::MissingCredentials);
    assert_eq!(f.delay_ms, 0);
}

#[test]
fn empty_password_fails_fast_without_delay() {
    let keys = keys();
    let mut store = store_with(vec![alice()]);
    let auth = UserAuth { shortcode: "alice".to_string(), password: String::new() };
    let f = authenticate(&mut store, &keys, &auth, false, 1000).err().expect("must fail");
    assert_eq!(f.error, AuthError::MissingCredentials);
    assert_eq!(f.delay_ms, 0);
}

#[test]
fn wrong_password_and_unknown_shortcode_fail_identically() {
    let keys = keys();
    let mut store = store_with(vec![alice()]);
    let wrong = UserAuth { shortcode: "alice".to_string(), password: "incorrect".to_string() };
    let unknown = UserAuth { shortcode: "mallory".to_string(), password: "correct".to_string() };
    let f1 = authenticate(&mut store, &keys, &wrong, false, 1000).err().expect("must fail");
    let f2 = authenticate(&mut store, &keys, &unknown, false, 1000).err().expect("must fail");
    assert_eq!(f1.error, AuthError::WrongCredentials);
    assert_eq!(f2.error, AuthError::WrongCredentials);
    assert!(100 <= f1.delay_ms && f1.delay_ms <= 500);
    assert!(100 <= f2.delay_ms && f2.delay_ms <= 500);
}

#[test]
fn malformed_stored_hash_reports_wrong_credentials() {
    let keys = keys();
    let mut broken = alice();
    broken.password_hash = "not-a-phc-hash".to_string();
    let mut store = store_with(vec![broken]);
    let auth = UserAuth { shortcode: "alice".to_string(), password: "correct".to_string() };
    let f = authenticate(&mut store, &keys, &auth, false, 1000).err().expect("must fail");
    assert_eq!(f.error, AuthError::WrongCredentials);
    assert!(100 <= f.delay_ms && f.delay_ms <= 500);
}

#[test]
fn successful_login_records_last_login() {
    let keys = keys();
    let mut store = store_with(vec![alice()]);
    let auth = UserAuth { shortcode: "alice".to_string(), password: "correct".to_string() };
    authenticate(&mut store, &keys, &auth, false, 4242).expect("login should succeed");
    assert_eq!(store.users[0].last_login, Some(4242));
    assert!(store.users[0].current_refresh_id.is_none());
}

#[test]
fn long_session_persists_a_rotation_id() {
    let keys = keys();
    let mut store = store_with(vec![alice()]);
    let auth = UserAuth { shortcode: "alice".to_string(), password: "correct".to_string() };
    let body = authenticate(&mut store, &keys, &auth, true, 4242).expect("login should succeed");
    assert!(body.refresh_token.is_some());
    assert!(store.users[0].current_refresh_id.is_some());
    assert_eq!(store.users[0].last_login, Some(4242));
}

#[test]
fn failed_login_leaves_the_store_unchanged() {
    let keys = keys();
    let mut store = store_with(vec![alice()]);
    let auth = UserAuth { shortcode: "alice".to_string(), password: "incorrect".to_string() };
    let _ = authenticate(&mut store, &keys, &auth, true, 1000);
    assert!(store.users[0].current_refresh_id.is_none());
    assert!(store.users[0].last_login.is_none());
}

#[test]
fn status_codes_match_the_taxonomy() {
    assert_eq!(AuthError::WrongCredentials.status_code(), 401);
    assert_eq!(AuthError::MissingCredentials.status_code(), 400);
    assert_eq!(AuthError::InvalidToken.status_code(), 400);
    assert_eq!(AuthError::TokenCreation.status_code(), 500);
}

#[test]
fn duplicate_shortcode_is_refused_by_the_store() {
    let mut store = store_with(vec![alice()]);
    let mut clone = alice();
    clone.id = 8;
    assert!(!store.add_identity(clone));
    let mut same_id = alice();
    same_id.shortcode = "bob".to_string();
    assert!(!store.add_identity(same_id));
}
