use argon2::{Argon2, PasswordHasher};
use session_auth::claims::AccessClaims;
use session_auth::codec::{check_access, issue_access, KeyConfig, TokenCheck};
use session_auth::credentials::{verify, CredentialCheck, DECOY_HASH};
use session_auth::guard::{authorize, bearer_token};
use session_auth::hexfmt::{append_hex, parse_hex, str_eq};
use session_auth::session::{authenticate, now_seconds, rotate, AuthError, UserAuth};
use session_auth::store::{Identity, UserStore};

fn hash_of(pw: &str) -> String {
    Argon2::default()
        .hash_password_with_salt(pw.as_bytes(), b"0123456789abcdef")
        .unwrap()
        .to_string()
}

fn keys() -> KeyConfig {
    KeyConfig::new(b"access-key-one".to_vec(), b"refresh-key-two".to_vec())
}

fn seeded_store() -> UserStore {
    let mut s = UserStore::new();
    let ok = s.add_identity(Identity {
        id: 7,
        shortcode: "alice".to_string(),
        password_hash: hash_of("correct"),
        display_name: "Alice Li".to_string(),
        tier: 1,
        is_admin: false,
        current_refresh_id: None,
        last_login: None,
    });
    assert!(ok);
    s
}

fn login(store: &mut UserStore, keys: &KeyConfig, long: bool, now: u64) -> (String, Option<String>) {
    let auth = UserAuth { shortcode: "alice".to_string(), password: "correct".to_string() };
    let body = authenticate(store, keys, &auth, long, now).expect("login should succeed");
    (body.access_token, body.refresh_token)
}

#[test]
fn missing_or_unlabelled_header_is_refused_before_validation() {
    let keys = keys();
    assert_eq!(authorize(None, &keys, 0).err().unwrap(), AuthError::MissingCredentials);
    assert_eq!(
        authorize(Some("Basic abc"), &keys, 0).err().unwrap(),
        AuthError::MissingCredentials
    );
    assert_eq!(authorize(Some(""), &keys, 0).err().unwrap(), AuthError::MissingCredentials);
}

#[test]
fn bearer_header_exposes_the_claims() {
    let keys = keys();
    let mut store = seeded_store();
    let (access, _) = login(&mut store, &keys, false, 1000);
    let header = format!("Bearer {}", access);
    let claims = authorize(Some(&header), &keys, 1001).expect("valid token must pass the guard");
    assert_eq!(claims.sub, "alice");
    assert_eq!(claims.user_id, 7);
    assert_eq!(claims.tier, 1);
    assert!(!claims.admin);
}

#[test]
fn tampered_token_is_invalid() {
    let keys = keys();
    let mut store = seeded_store();
    let (access, _) = login(&mut store, &keys, false, 1000);
    // flip the final character of the payload
    let mut chars: Vec<char> = access.chars().collect();
    let last = *chars.last().unwrap();
    *chars.last_mut().unwrap() = if last == '0' { '1' } else { '0' };
    let forged: String = chars.into_iter().collect();
    let header = format!("Bearer {}", forged);
    assert_eq!(
        authorize(Some(&header), &keys, 1001).err().unwrap(),
        AuthError::InvalidToken
    );
}

#[test]
fn token_signed_with_the_wrong_key_is_malformed() {
    let keys = keys();
    let mut store = seeded_store();
    let (access, _) = login(&mut store, &keys, false, 1000);
    match check_access(&access, &keys.refresh_key, 1001) {
        TokenCheck::Malformed => {},
        _ => panic!("the refresh key must not validate an access token"),
    }
}

#[test]
fn expiry_is_exclusive_at_the_boundary() {
    let keys = keys();
    let mut store = seeded_store();
    let (access, _) = login(&mut store, &keys, false, 5000);
    let expiry = 5000 + 3600;
    let header = format!("Bearer {}", access);
    assert!(authorize(Some(&header), &keys, expiry - 1).is_ok());
    assert_eq!(
        authorize(Some(&header), &keys, expiry).err().unwrap(),
        AuthError::InvalidToken
    );
    assert_eq!(
        authorize(Some(&header), &keys, expiry + 1).err().unwrap(),
        AuthError::InvalidToken
    );
    match check_access(&access, &keys.access_key, expiry) {
        TokenCheck::Expired => {},
        _ => panic!("the codec must report expiry internally"),
    }
}

#[test]
fn rotation_does_not_invalidate_an_issued_access_token() {
    let keys = keys();
    let mut store = seeded_store();
    let (access, refresh) = login(&mut store, &keys, true, 1000);
    let r0 = refresh.expect("long session must include a refresh token");

    rotate(&mut store, &keys, &r0, 1010).expect("rotation must succeed");

    let header = format!("Bearer {}", access);
    let claims = authorize(Some(&header), &keys, 1020).expect("access token must stay valid");
    assert_eq!(claims.user_id, 7);
}

#[test]
fn issue_then_check_round_trips_every_field() {
    let keys = keys();
    let claims = AccessClaims {
        sub: "weird sub with spaces".to_string(),
        exp: 99,
        user_id: u128::MAX,
        name: String::new(),
        tier: 0,
        admin: true,
    };
    let t = issue_access(&claims, &keys.access_key);
    match check_access(&t, &keys.access_key, 98) {
        TokenCheck::Valid(c) => {
            assert_eq!(c.sub, "weird sub with spaces");
            assert_eq!(c.exp, 99);
            assert_eq!(c.user_id, u128::MAX);
            assert_eq!(c.name, "");
            assert_eq!(c.tier, 0);
            assert!(c.admin);
        },
        _ => panic!("issued token must validate"),
    }
}

#[test]
fn bearer_token_splits_only_the_scheme() {
    assert_eq!(bearer_token("Bearer abc def"), Some("abc def"));
    assert_eq!(bearer_token("Bearer "), Some(""));
    assert_eq!(bearer_token("bearer abc"), None);
    assert_eq!(bearer_token("Bearer"), None);
}

#[test]
fn hex_rendering_has_exact_expected_values() {
    let mut s = String::new();
    append_hex(&mut s, 255, 16);
    assert_eq!(s, "00000000000000ff");
    let mut t = String::new();
    append_hex(&mut t, 0x1a2b3c, 8);
    assert_eq!(t, "001a2b3c");
    assert_eq!(parse_hex(&s, 0, 16), Some(255));
    assert_eq!(parse_hex("zz", 0, 2), None);
    assert_eq!(parse_hex("00ff", 2, 2), Some(255));
}

#[test]
fn str_eq_compares_by_characters() {
    assert!(str_eq("abc", "abc"));
    assert!(!str_eq("abc", "abd"));
    assert!(!str_eq("abc", "ab"));
    assert!(str_eq("", ""));
}

#[test]
fn credential_verifier_distinguishes_its_three_outcomes() {
    let h = hash_of("correct");
    assert!(matches!(verify("correct", &h), CredentialCheck::Accepted));
    assert!(matches!(verify("incorrect", &h), CredentialCheck::Rejected));
    assert!(matches!(verify("correct", "garbage"), CredentialCheck::MalformedHash));
    // the decoy hash must be structurally sound so its check costs the same
    assert!(matches!(verify("anything", DECOY_HASH), CredentialCheck::Rejected));
}

#[test]
fn the_clock_reports_a_recent_instant() {
    // well after 2020-01-01, well before the clamp limit
    let now = now_seconds();
    assert!(now > 1_577_836_800);
    assert!(now < u64::MAX - 7_257_600);
}

#[test]
fn a_refresh_token_never_passes_the_access_guard() {
    // even with one key shared by both families, the kind marker keeps the
    // token families apart
    let shared = KeyConfig::new(b"one-shared-key".to_vec(), b"one-shared-key".to_vec());
    let mut store = seeded_store();
    let auth = UserAuth { shortcode: "alice".to_string(), password: "correct".to_string() };
    let body = authenticate(&mut store, &shared, &auth, true, 1000).expect("login should succeed");
    let refresh = body.refresh_token.expect("long session must include a refresh token");
    let header = format!("Bearer {}", refresh);
    assert_eq!(
        authorize(Some(&header), &shared, 1001).err().unwrap(),
        AuthError::InvalidToken
    );
}

#[test]
fn issuing_the_same_claims_twice_gives_the_same_token() {
    let keys = keys();
    let claims = AccessClaims {
        sub: "alice".to_string(),
        exp: 77,
        user_id: 7,
        name: "Alice Li".to_string(),
        tier: 1,
        admin: false,
    };
    let again = AccessClaims {
        sub: "alice".to_string(),
        exp: 77,
        user_id: 7,
        name: "Alice Li".to_string(),
        tier: 1,
        admin: false,
    };
    assert_eq!(issue_access(&claims, &keys.access_key), issue_access(&again, &keys.access_key));
}

#[test]
fn non_ascii_names_survive_the_wire_format() {
    let keys = keys();
    let claims = AccessClaims {
        sub: "ålice".to_string(),
        exp: 500,
        user_id: 11,
        name: "Ällie Ønsdag 日本".to_string(),
        tier: 2,
        admin: false,
    };
    let t = issue_access(&claims, &keys.access_key);
    match check_access(&t, &keys.access_key, 499) {
        TokenCheck::Valid(c) => {
            assert_eq!(c.sub, "ålice");
            assert_eq!(c.name, "Ällie Ønsdag 日本");
        },
        _ => panic!("issued token must validate"),
    }
}
