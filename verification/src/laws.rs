//! The laws of the session core, each proved from the public contracts of
//! login, rotation and validation alone.

use vstd::prelude::*;
use crate::claims::{AccessClaimsView, RefreshClaimsView};
use crate::codec::{
    access_token_for, lemma_check_access_of_token, lemma_check_refresh_of_token,
    refresh_token_for, spec_check_access, spec_check_refresh, TokenCheck,
};
use crate::session::{
    access_claims_for, credentials_missing, login_accepts, login_error, login_ok_post,
    rotate_accepts, rotate_ok_post, AuthBodyView, AuthError, UserAuthView, ACCESS_TOKEN_SECS,
    NOW_LIMIT,
};
use crate::store::{
    has_id, has_shortcode, idx_by_id, idx_by_shortcode, lemma_id_index_unique,
    lemma_shortcode_index_unique, lemma_wf_update_same_keys, wf, IdentityView,
};

verus! {

/// A login accepted with the correct password hands out an access token
/// that, for as long as it lives, validates to exactly that identity's
/// shortcode, id, display name, tier and admin flag.
pub proof fn law_login_token_carries_identity(
    s0: Seq<IdentityView>,
    s1: Seq<IdentityView>,
    a: UserAuthView,
    akey: Seq<u8>,
    rkey: Seq<u8>,
    keep_login: bool,
    now: u64,
    b: AuthBodyView,
    now2: u64,
)
    requires
        wf(s0),
        now <= NOW_LIMIT,
        login_accepts(s0, a),
        login_ok_post(s0, s1, a, akey, rkey, keep_login, now, b),
        now2 < now + ACCESS_TOKEN_SECS,
    ensures
        ({
            let u = s0[idx_by_shortcode(s0, a.shortcode)];
            spec_check_access(b.access_token, akey, now2) == TokenCheck::Valid(
                access_claims_for(u, now),
            ) && access_claims_for(u, now).sub == u.shortcode && access_claims_for(u, now).user_id
                == u.id && access_claims_for(u, now).tier == u.tier && access_claims_for(
                u,
                now,
            ).admin == u.is_admin
        }),
{
    let u = s0[idx_by_shortcode(s0, a.shortcode)];
    lemma_check_access_of_token(b.access_token, akey, access_claims_for(u, now), now2);
}

/// An unknown shortcode and a wrong password report the same error: the
/// reported error is computed from the presence of the inputs alone, never
/// from which step failed.
pub proof fn law_failure_causes_indistinguishable(
    s: Seq<IdentityView>,
    a_unknown: UserAuthView,
    a_wrong: UserAuthView,
)
    requires
        !credentials_missing(a_unknown),
        !credentials_missing(a_wrong),
        !has_shortcode(s, a_unknown.shortcode),
        !login_accepts(s, a_wrong),
    ensures
        login_error(a_unknown) == AuthError::WrongCredentials,
        login_error(a_wrong) == AuthError::WrongCredentials,
        login_error(a_unknown) == login_error(a_wrong),
{
}

/// A refresh token is single use: once a rotation has consumed it, no later
/// rotation against the resulting store accepts it again, at any time, even
/// if the replacement token is never used.
pub proof fn law_rotation_single_use(
    s0: Seq<IdentityView>,
    s1: Seq<IdentityView>,
    akey: Seq<u8>,
    rkey: Seq<u8>,
    t0: Seq<char>,
    now: u64,
    b: AuthBodyView,
)
    requires
        wf(s0),
        rotate_accepts(s0, rkey, t0, now),
        rotate_ok_post(s0, s1, akey, rkey, t0, now, b),
    ensures
        forall|now2: u64| !rotate_accepts(s1, rkey, t0, now2),
{
    let c = spec_check_refresh(t0, rkey, now)->Valid_0;
    let i = idx_by_id(s0, c.user_id);
    lemma_wf_update_same_keys(
        s0,
        i,
        IdentityView { current_refresh_id: s1[i].current_refresh_id, ..s0[i] },
    );
    assert forall|now2: u64| !rotate_accepts(s1, rkey, t0, now2) by {
        match spec_check_refresh(t0, rkey, now2) {
            TokenCheck::Valid(c2) => {
                assert(c2 == c);
                assert(s1[i].id == c.user_id);
                lemma_id_index_unique(s1, i);
                assert(s1[idx_by_id(s1, c.user_id)].current_refresh_id != Some(c.jti));
            },
            TokenCheck::Expired => {},
            TokenCheck::Malformed => {},
        }
    }
}

/// One active session per identity: a new long-session login overwrites the
/// identity's rotation id with a fresh one, so whatever refresh token was
/// previously outstanding for that identity is refused from then on.
pub proof fn law_login_invalidates_previous_refresh(
    s0: Seq<IdentityView>,
    s1: Seq<IdentityView>,
    a: UserAuthView,
    akey: Seq<u8>,
    rkey: Seq<u8>,
    now: u64,
    b: AuthBodyView,
    t0: Seq<char>,
    now0: u64,
)
    requires
        wf(s0),
        login_accepts(s0, a),
        login_ok_post(s0, s1, a, akey, rkey, true, now, b),
        rotate_accepts(s0, rkey, t0, now0),
        spec_check_refresh(t0, rkey, now0)->Valid_0.user_id == s0[idx_by_shortcode(
            s0,
            a.shortcode,
        )].id,
    ensures
        forall|now2: u64| !rotate_accepts(s1, rkey, t0, now2),
{
    let i = idx_by_shortcode(s0, a.shortcode);
    let u = s0[i];
    let c = spec_check_refresh(t0, rkey, now0)->Valid_0;
    lemma_id_index_unique(s0, i);
    assert(s0[idx_by_id(s0, c.user_id)].current_refresh_id == Some(c.jti));
    assert(u.current_refresh_id == Some(c.jti));
    lemma_wf_update_same_keys(
        s0,
        i,
        IdentityView { current_refresh_id: s1[i].current_refresh_id, last_login: Some(now), ..u },
    );
    assert forall|now2: u64| !rotate_accepts(s1, rkey, t0, now2) by {
        match spec_check_refresh(t0, rkey, now2) {
            TokenCheck::Valid(c2) => {
                assert(c2 == c);
                assert(s1[i].id == c.user_id);
                lemma_id_index_unique(s1, i);
                assert(s1[idx_by_id(s1, c.user_id)].current_refresh_id != Some(c.jti));
            },
            TokenCheck::Expired => {},
            TokenCheck::Malformed => {},
        }
    }
}

/// Access tokens are stateless: what an access token validates to is a
/// function of the token, the access key and the clock alone, so rotating
/// or revoking refresh state — which only rewrites the store — leaves every
/// already-issued, unexpired access token valid.
pub proof fn law_access_token_stateless(
    s0: Seq<IdentityView>,
    s1: Seq<IdentityView>,
    akey: Seq<u8>,
    rkey: Seq<u8>,
    t_rot: Seq<char>,
    now: u64,
    b: AuthBodyView,
    t_access: Seq<char>,
    c: AccessClaimsView,
)
    requires
        rotate_ok_post(s0, s1, akey, rkey, t_rot, now, b),
        access_token_for(t_access, akey, c),
    ensures
        forall|now2: u64|
            now2 < c.exp ==> #[trigger] spec_check_access(t_access, akey, now2)
                == TokenCheck::Valid(c),
{
    assert forall|now2: u64|
        now2 < c.exp implies #[trigger] spec_check_access(t_access, akey, now2)
        == TokenCheck::Valid(c) by {
        lemma_check_access_of_token(t_access, akey, c, now2);
    }
}

/// The expiry bound is exclusive: a token validates strictly before its
/// expiry, and from the expiry instant onward — the boundary second
/// included — it is expired.
pub proof fn law_expiry_boundary(t: Seq<char>, akey: Seq<u8>, c: AccessClaimsView)
    requires
        access_token_for(t, akey, c),
    ensures
        forall|now2: u64|
            now2 < c.exp ==> #[trigger] spec_check_access(t, akey, now2) == TokenCheck::Valid(c),
        forall|now2: u64|
            now2 >= c.exp ==> #[trigger] spec_check_access(t, akey, now2)
                matches TokenCheck::Expired,
        spec_check_access(t, akey, c.exp) matches TokenCheck::Expired,
        c.exp >= 1 ==> spec_check_access(t, akey, (c.exp - 1) as u64) == TokenCheck::Valid(c),
{
    assert forall|now2: u64|
        now2 < c.exp implies #[trigger] spec_check_access(t, akey, now2) == TokenCheck::Valid(
        c,
    ) by {
        lemma_check_access_of_token(t, akey, c, now2);
    }
    assert forall|now2: u64|
        now2 >= c.exp implies #[trigger] spec_check_access(t, akey, now2)
        matches TokenCheck::Expired by {
        lemma_check_access_of_token(t, akey, c, now2);
    }
}

/// The same exclusive expiry bound holds of refresh tokens: valid strictly
/// before the expiry, expired from the expiry instant onward.
pub proof fn law_refresh_expiry_boundary(t: Seq<char>, rkey: Seq<u8>, c: RefreshClaimsView)
    requires
        refresh_token_for(t, rkey, c),
    ensures
        forall|now2: u64|
            now2 < c.exp ==> #[trigger] spec_check_refresh(t, rkey, now2) == TokenCheck::Valid(c),
        forall|now2: u64|
            now2 >= c.exp ==> #[trigger] spec_check_refresh(t, rkey, now2)
                matches TokenCheck::Expired,
        spec_check_refresh(t, rkey, c.exp) matches TokenCheck::Expired,
{
    assert forall|now2: u64|
        now2 < c.exp implies #[trigger] spec_check_refresh(t, rkey, now2) == TokenCheck::Valid(
        c,
    ) by {
        lemma_check_refresh_of_token(t, rkey, c, now2);
    }
    assert forall|now2: u64|
        now2 >= c.exp implies #[trigger] spec_check_refresh(t, rkey, now2)
        matches TokenCheck::Expired by {
        lemma_check_refresh_of_token(t, rkey, c, now2);
    }
}

} // verus!
