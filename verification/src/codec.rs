//! Token codec: signs claim payloads into compact, tamper-evident strings
//! and validates presented tokens.
//!
//! A token is sixty-four hex characters of HMAC-SHA-256 tag computed over the
//! payload, followed by the payload itself. Access and refresh tokens are
//! signed with independent keys, and their payloads carry distinct kind
//! markers, so neither can pass for the other. Validation recomputes the tag,
//! then decodes the payload, then compares the expiry against the given
//! time: a token whose expiry equals the current instant is already expired.

use vstd::prelude::*;
use vstd::string::{StrSliceExecFns, StringExecFns};
use hmac::{Hmac, KeyInit, Mac};
use sha2::Sha256;
use crate::claims::{
    encode_access, encode_access_payload, encode_refresh, encode_refresh_payload,
    parse_access_payload, parse_refresh_payload, spec_parse_access, spec_parse_refresh,
    AccessClaims, AccessClaimsView, RefreshClaims, RefreshClaimsView,
};
use crate::hexfmt::{append_hex, hex_rep, lemma_pow16_16, str_eq};

verus! {

/// The two signing keys, one per token family, constructed explicitly so
/// that no hidden global state decides which key signs what.
pub struct KeyConfig {
    pub access_key: Vec<u8>,
    pub refresh_key: Vec<u8>,
}

impl KeyConfig {
    pub fn new(access_key: Vec<u8>, refresh_key: Vec<u8>) -> (r: KeyConfig)
        ensures
            r.access_key@ == access_key@,
            r.refresh_key@ == refresh_key@,
    {
        KeyConfig { access_key, refresh_key }
    }
}

/// The HMAC-SHA-256 tag of a message under a key: a fixed function of the
/// two arguments alone.
pub uninterp spec fn mac_of(key: Seq<u8>, msg: Seq<char>) -> Seq<u8>;

/// Relies on hmac's `Hmac<Sha256>`: `new_from_slice` accepts a key of any
/// length (its source always returns `Ok`), and `update`/`finalize` produce
/// the thirty-two byte HMAC-SHA-256 tag of the message, a function of key
/// and message alone.
#[verifier::external_body]
fn mac_tag(key: &Vec<u8>, msg: &str) -> (r: Vec<u8>)
    ensures
        r@ == mac_of(key@, msg@),
        r@.len() == 32,
{
    let mut m = match <Hmac<Sha256> as KeyInit>::new_from_slice(key.as_slice()) {
        Ok(m) => m,
        // never reached: HMAC accepts keys of any length
        Err(_) => return Vec::new(),
    };
    m.update(msg.as_bytes());
    m.finalize().into_bytes().as_slice().to_vec()
}

/// Bytes rendered as two hex characters each, in order.
pub open spec fn bytes_hex(bs: Seq<u8>) -> Seq<char>
    decreases bs.len(),
{
    if bs.len() == 0 {
        Seq::empty()
    } else {
        hex_rep(bs[0] as nat, 2) + bytes_hex(bs.drop_first())
    }
}

pub proof fn lemma_bytes_hex_snoc(s: Seq<u8>, b: u8)
    ensures
        bytes_hex(s.push(b)) == bytes_hex(s) + hex_rep(b as nat, 2),
    decreases s.len(),
{
    crate::hexfmt::lemma_hex_rep_len(b as nat, 2);
    if s.len() == 0 {
        let t = s.push(b);
        assert(t.drop_first() =~= Seq::<u8>::empty());
        assert(t[0] == b);
        assert(bytes_hex(t) == hex_rep(b as nat, 2) + bytes_hex(Seq::<u8>::empty()));
        assert(bytes_hex(Seq::<u8>::empty()) == Seq::<char>::empty());
        assert(bytes_hex(s) == Seq::<char>::empty());
        assert(bytes_hex(t) =~= bytes_hex(s) + hex_rep(b as nat, 2));
    } else {
        assert(s.push(b).drop_first() =~= s.drop_first().push(b));
        lemma_bytes_hex_snoc(s.drop_first(), b);
        assert(s.push(b)[0] == s[0]);
        assert(bytes_hex(s.push(b)) =~= bytes_hex(s) + hex_rep(b as nat, 2));
    }
}

pub proof fn lemma_bytes_hex_len(s: Seq<u8>)
    ensures
        bytes_hex(s).len() == 2 * s.len(),
    decreases s.len(),
{
    if s.len() > 0 {
        crate::hexfmt::lemma_hex_rep_len(s[0] as nat, 2);
        lemma_bytes_hex_len(s.drop_first());
    }
}

/// Appends each byte as two hex characters.
fn append_bytes_hex(out: &mut String, bs: &Vec<u8>)
    ensures
        final(out)@ == old(out)@ + bytes_hex(bs@),
{
    let mut i: usize = 0;
    while i < bs.len()
        invariant
            i <= bs@.len(),
            out@ == old(out)@ + bytes_hex(bs@.subrange(0, i as int)),
        decreases bs@.len() - i,
    {
        append_hex(out, bs[i] as u128, 2);
        proof {
            lemma_bytes_hex_snoc(bs@.subrange(0, i as int), bs@[i as int]);
            assert(bs@.subrange(0, i as int + 1) =~= bs@.subrange(0, i as int).push(bs@[i as int]));
            assert(out@ =~= old(out)@ + bytes_hex(bs@.subrange(0, i as int + 1)));
        }
        i = i + 1;
    }
    proof {
        assert(bs@.subrange(0, bs@.len() as int) =~= bs@);
    }
}

/// The token's tag matches its payload under `key`.
pub open spec fn well_signed(t: Seq<char>, key: Seq<u8>) -> bool {
    t.len() >= 64 && t.subrange(0, 64) == bytes_hex(mac_of(key, t.skip(64)))
}

/// `t` is the well-signed access token carrying exactly the claims `c`.
pub open spec fn access_token_for(t: Seq<char>, key: Seq<u8>, c: AccessClaimsView) -> bool {
    well_signed(t, key) && spec_parse_access(t.skip(64)) == Some(c)
}

/// `t` is the well-signed refresh token carrying exactly the claims `c`.
pub open spec fn refresh_token_for(t: Seq<char>, key: Seq<u8>, c: RefreshClaimsView) -> bool {
    well_signed(t, key) && spec_parse_refresh(t.skip(64)) == Some(c)
}

/// What validation reports: the claims of a token in good standing, or which
/// of the two failure families occurred. Externally both failures collapse
/// into one error; the distinction exists for internal accounting.
pub enum TokenCheck<C> {
    Valid(C),
    Expired,
    Malformed,
}

/// Deterministic validation of an access token.
pub open spec fn spec_check_access(t: Seq<char>, key: Seq<u8>, now: u64) -> TokenCheck<
    AccessClaimsView,
> {
    if !well_signed(t, key) {
        TokenCheck::Malformed
    } else {
        match spec_parse_access(t.skip(64)) {
            Option::None => TokenCheck::Malformed,
            Option::Some(c) => if now < c.exp {
                TokenCheck::Valid(c)
            } else {
                TokenCheck::Expired
            },
        }
    }
}

/// Deterministic validation of a refresh token.
pub open spec fn spec_check_refresh(t: Seq<char>, key: Seq<u8>, now: u64) -> TokenCheck<
    RefreshClaimsView,
> {
    if !well_signed(t, key) {
        TokenCheck::Malformed
    } else {
        match spec_parse_refresh(t.skip(64)) {
            Option::None => TokenCheck::Malformed,
            Option::Some(c) => if now < c.exp {
                TokenCheck::Valid(c)
            } else {
                TokenCheck::Expired
            },
        }
    }
}

/// A well-signed token validates by its expiry alone: strictly before the
/// expiry it is valid with exactly its claims, from the expiry onward it is
/// expired. Neither outcome depends on any stored state.
pub proof fn lemma_check_access_of_token(t: Seq<char>, key: Seq<u8>, c: AccessClaimsView, now: u64)
    requires
        access_token_for(t, key, c),
    ensures
        spec_check_access(t, key, now) == if now < c.exp {
            TokenCheck::Valid(c)
        } else {
            TokenCheck::<AccessClaimsView>::Expired
        },
{
}

/// The refresh-token counterpart of `lemma_check_access_of_token`.
pub proof fn lemma_check_refresh_of_token(
    t: Seq<char>,
    key: Seq<u8>,
    c: RefreshClaimsView,
    now: u64,
)
    requires
        refresh_token_for(t, key, c),
    ensures
        spec_check_refresh(t, key, now) == if now < c.exp {
            TokenCheck::Valid(c)
        } else {
            TokenCheck::<RefreshClaimsView>::Expired
        },
{
}

/// Signs the claims into an access token.
pub fn issue_access(c: &AccessClaims, key: &Vec<u8>) -> (t: String)
    ensures
        t@ == bytes_hex(mac_of(key@, encode_access(c@))) + encode_access(c@),
        access_token_for(t@, key@, c@),
{
    let payload = encode_access_payload(c);
    let tag = mac_tag(key, payload.as_str());
    let mut t = String::new();
    append_bytes_hex(&mut t, &tag);
    t.append(payload.as_str());
    proof {
        lemma_bytes_hex_len(tag@);
        assert(t@.subrange(0, 64) =~= bytes_hex(mac_of(key@, payload@)));
        assert(t@.skip(64) =~= payload@);
        lemma_pow16_16();
        crate::claims::lemma_access_roundtrip(c@);
    }
    t
}

/// Signs the claims into a refresh token.
pub fn issue_refresh(c: &RefreshClaims, key: &Vec<u8>) -> (t: String)
    ensures
        t@ == bytes_hex(mac_of(key@, encode_refresh(c@))) + encode_refresh(c@),
        refresh_token_for(t@, key@, c@),
{
    let payload = encode_refresh_payload(c);
    let tag = mac_tag(key, payload.as_str());
    let mut t = String::new();
    append_bytes_hex(&mut t, &tag);
    t.append(payload.as_str());
    proof {
        lemma_bytes_hex_len(tag@);
        assert(t@.subrange(0, 64) =~= bytes_hex(mac_of(key@, payload@)));
        assert(t@.skip(64) =~= payload@);
        lemma_pow16_16();
        crate::claims::lemma_refresh_roundtrip(c@);
    }
    t
}

/// Validates an access token against a key and the current time.
pub fn check_access(t: &str, key: &Vec<u8>, now: u64) -> (r: TokenCheck<AccessClaims>)
    ensures
        match r {
            TokenCheck::Valid(c) => spec_check_access(t@, key@, now) == TokenCheck::Valid(c@),
            TokenCheck::Expired => spec_check_access(t@, key@, now) matches TokenCheck::Expired,
            TokenCheck::Malformed => spec_check_access(t@, key@, now)
                matches TokenCheck::Malformed,
        },
{
    let n = t.unicode_len();
    if n < 64 {
        return TokenCheck::Malformed;
    }
    let payload = t.substring_char(64, n);
    proof {
        assert(payload@ =~= t@.skip(64));
    }
    let tag = mac_tag(key, payload);
    let mut expected = String::new();
    append_bytes_hex(&mut expected, &tag);
    let prefix = t.substring_char(0, 64);
    if !str_eq(prefix, expected.as_str()) {
        return TokenCheck::Malformed;
    }
    match parse_access_payload(payload) {
        Option::None => TokenCheck::Malformed,
        Option::Some(c) => {
            if now < c.exp {
                TokenCheck::Valid(c)
            } else {
                TokenCheck::Expired
            }
        },
    }
}

/// Validates a refresh token against a key and the current time.
pub fn check_refresh(t: &str, key: &Vec<u8>, now: u64) -> (r: TokenCheck<RefreshClaims>)
    ensures
        match r {
            TokenCheck::Valid(c) => spec_check_refresh(t@, key@, now) == TokenCheck::Valid(c@),
            TokenCheck::Expired => spec_check_refresh(t@, key@, now) matches TokenCheck::Expired,
            TokenCheck::Malformed => spec_check_refresh(t@, key@, now)
                matches TokenCheck::Malformed,
        },
{
    let n = t.unicode_len();
    if n < 64 {
        return TokenCheck::Malformed;
    }
    let payload = t.substring_char(64, n);
    proof {
        assert(payload@ =~= t@.skip(64));
    }
    let tag = mac_tag(key, payload);
    let mut expected = String::new();
    append_bytes_hex(&mut expected, &tag);
    let prefix = t.substring_char(0, 64);
    if !str_eq(prefix, expected.as_str()) {
        return TokenCheck::Malformed;
    }
    match parse_refresh_payload(payload) {
        Option::None => TokenCheck::Malformed,
        Option::Some(c) => {
            if now < c.exp {
                TokenCheck::Valid(c)
            } else {
                TokenCheck::Expired
            }
        },
    }
}

} // verus!
