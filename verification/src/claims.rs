//! Claim sets carried by the two token kinds, and their wire format.
//!
//! A payload is a character string: a kind marker, then the fields, numbers
//! as fixed-width hex and strings preceded by a sixteen-digit length. The
//! decoder is proved to invert the encoder exactly.

use vstd::prelude::*;
use vstd::string::{StrSliceExecFns, StringExecFns};
use crate::hexfmt::{
    all_hex, append_hex, hex_rep, hex_val, lemma_hex_rep_len, lemma_hex_roundtrip,
    lemma_hex_val_bound, lemma_pow16_16, lemma_pow16_2, lemma_pow16_32, parse_hex, pow16,
};

verus! {

/// Claims of a short-lived access token; self-contained, never persisted.
pub struct AccessClaims {
    /// Subject: the identity's login shortcode.
    pub sub: String,
    /// Expiry as seconds since the Unix epoch (exclusive: the token is
    /// already expired at this instant).
    pub exp: u64,
    pub user_id: u128,
    /// Display name.
    pub name: String,
    /// Membership tier ordinal.
    pub tier: u8,
    pub admin: bool,
}

/// Claims of a long-lived refresh token; validity additionally depends on the
/// identity's current rotation id.
pub struct RefreshClaims {
    pub sub: String,
    pub exp: u64,
    /// Rotation id: must equal the identity's stored `current_refresh_id`.
    pub jti: u128,
    pub user_id: u128,
}

pub ghost struct AccessClaimsView {
    pub sub: Seq<char>,
    pub exp: u64,
    pub user_id: u128,
    pub name: Seq<char>,
    pub tier: u8,
    pub admin: bool,
}

pub ghost struct RefreshClaimsView {
    pub sub: Seq<char>,
    pub exp: u64,
    pub jti: u128,
    pub user_id: u128,
}

impl View for AccessClaims {
    type V = AccessClaimsView;

    open spec fn view(&self) -> AccessClaimsView {
        AccessClaimsView {
            sub: self.sub@,
            exp: self.exp,
            user_id: self.user_id,
            name: self.name@,
            tier: self.tier,
            admin: self.admin,
        }
    }
}

impl View for RefreshClaims {
    type V = RefreshClaimsView;

    open spec fn view(&self) -> RefreshClaimsView {
        RefreshClaimsView {
            sub: self.sub@,
            exp: self.exp,
            jti: self.jti,
            user_id: self.user_id,
        }
    }
}

/// A string field on the wire: its length as sixteen hex digits, then its
/// characters.
pub open spec fn str_field(s: Seq<char>) -> Seq<char> {
    hex_rep(s.len(), 16) + s
}

/// The access payload.
pub open spec fn encode_access(c: AccessClaimsView) -> Seq<char> {
    seq!['A'] + str_field(c.sub) + hex_rep(c.exp as nat, 16) + hex_rep(c.user_id as nat, 32)
        + str_field(c.name) + hex_rep(c.tier as nat, 2) + seq![if c.admin {
        '1'
    } else {
        '0'
    }]
}

/// The refresh payload.
pub open spec fn encode_refresh(c: RefreshClaimsView) -> Seq<char> {
    seq!['R'] + str_field(c.sub) + hex_rep(c.exp as nat, 16) + hex_rep(c.user_id as nat, 32)
        + hex_rep(c.jti as nat, 32)
}

/// `width` hex digits can be read at `off`.
pub open spec fn hex_ok(p: Seq<char>, off: int, width: int) -> bool {
    &&& 0 <= off
    &&& 0 <= width
    &&& off + width <= p.len()
    &&& all_hex(p.subrange(off, off + width))
}

/// The number the `width` digits at `off` denote.
pub open spec fn hex_at(p: Seq<char>, off: int, width: int) -> nat {
    hex_val(p.subrange(off, off + width))
}

/// A well-formed string field starts at `off`.
pub open spec fn sfield_ok(p: Seq<char>, off: int) -> bool {
    &&& hex_ok(p, off, 16)
    &&& off + 16 + hex_at(p, off, 16) <= p.len()
}

/// The characters of the string field at `off`.
pub open spec fn sfield_val(p: Seq<char>, off: int) -> Seq<char> {
    p.subrange(off + 16, off + 16 + hex_at(p, off, 16))
}

/// The first position after the string field at `off`.
pub open spec fn sfield_end(p: Seq<char>, off: int) -> int {
    off + 16 + hex_at(p, off, 16)
}

/// Structural decode of an access payload: `None` on any malformation.
pub open spec fn spec_parse_access(p: Seq<char>) -> Option<AccessClaimsView> {
    if p.len() < 1 || p[0] != 'A' || !sfield_ok(p, 1) {
        None
    } else {
        let sub = sfield_val(p, 1);
        let o = sfield_end(p, 1);
        if !hex_ok(p, o, 16) || !hex_ok(p, o + 16, 32) || !sfield_ok(p, o + 48) {
            None
        } else {
            let name = sfield_val(p, o + 48);
            let o3 = sfield_end(p, o + 48);
            if !hex_ok(p, o3, 2) || p.len() != o3 + 3 || (p[o3 + 2] != '1' && p[o3 + 2] != '0') {
                None
            } else {
                Some(
                    AccessClaimsView {
                        sub,
                        exp: hex_at(p, o, 16) as u64,
                        user_id: hex_at(p, o + 16, 32) as u128,
                        name,
                        tier: hex_at(p, o3, 2) as u8,
                        admin: p[o3 + 2] == '1',
                    },
                )
            }
        }
    }
}

/// Structural decode of a refresh payload: `None` on any malformation.
pub open spec fn spec_parse_refresh(p: Seq<char>) -> Option<RefreshClaimsView> {
    if p.len() < 1 || p[0] != 'R' || !sfield_ok(p, 1) {
        None
    } else {
        let sub = sfield_val(p, 1);
        let o = sfield_end(p, 1);
        if !hex_ok(p, o, 16) || !hex_ok(p, o + 16, 32) || !hex_ok(p, o + 48, 32) || p.len() != o
            + 80 {
            None
        } else {
            Some(
                RefreshClaimsView {
                    sub,
                    exp: hex_at(p, o, 16) as u64,
                    user_id: hex_at(p, o + 16, 32) as u128,
                    jti: hex_at(p, o + 48, 32) as u128,
                },
            )
        }
    }
}

/// Appends a string field: sixteen-digit length, then the characters.
fn append_str_field(out: &mut String, s: &String)
    ensures
        final(out)@ == old(out)@ + str_field(s@),
        s@.len() <= usize::MAX,
{
    let n = s.unicode_len();
    append_hex(out, n as u128, 16);
    out.append(s.as_str());
    proof {
        assert(final(out)@ =~= old(out)@ + str_field(s@));
    }
}

/// Renders the access payload.
pub fn encode_access_payload(c: &AccessClaims) -> (p: String)
    ensures
        p@ == encode_access(c@),
        c.sub@.len() <= usize::MAX,
        c.name@.len() <= usize::MAX,
{
    proof {
        reveal_strlit("A");
        reveal_strlit("1");
        reveal_strlit("0");
    }
    let mut p = String::new();
    p.append("A");
    append_str_field(&mut p, &c.sub);
    append_hex(&mut p, c.exp as u128, 16);
    append_hex(&mut p, c.user_id, 32);
    append_str_field(&mut p, &c.name);
    append_hex(&mut p, c.tier as u128, 2);
    if c.admin {
        p.append("1");
    } else {
        p.append("0");
    }
    proof {
        assert(p@ =~= encode_access(c@));
    }
    p
}

/// Renders the refresh payload.
pub fn encode_refresh_payload(c: &RefreshClaims) -> (p: String)
    ensures
        p@ == encode_refresh(c@),
        c.sub@.len() <= usize::MAX,
{
    proof {
        reveal_strlit("R");
    }
    let mut p = String::new();
    p.append("R");
    append_str_field(&mut p, &c.sub);
    append_hex(&mut p, c.exp as u128, 16);
    append_hex(&mut p, c.user_id, 32);
    append_hex(&mut p, c.jti, 32);
    proof {
        assert(p@ =~= encode_refresh(c@));
    }
    p
}

/// Reads the string field at `off`: its characters and the position after.
fn parse_str_field(p: &str, off: usize, n: usize) -> (r: Option<(String, usize)>)
    requires
        n == p@.len(),
        off <= n,
    ensures
        r matches Some(pair) ==> sfield_ok(p@, off as int) && pair.0@ == sfield_val(p@, off as int)
            && pair.1 as int == sfield_end(p@, off as int) && off + 16 <= pair.1 <= n,
        r is None ==> !sfield_ok(p@, off as int),
{
    if n - off < 16 {
        return None;
    }
    let len128 = match parse_hex(p, off, 16) {
        None => {
            return None;
        },
        Some(v) => v,
    };
    if len128 > (n as u128) - (off as u128) - 16 {
        return None;
    }
    let flen = len128 as usize;
    let fend = off + 16 + flen;
    let s = p.substring_char(off + 16, fend);
    Some((s.to_owned(), fend))
}

/// Decodes an access payload; agrees with `spec_parse_access` exactly.
pub fn parse_access_payload(p: &str) -> (r: Option<AccessClaims>)
    ensures
        match r {
            Some(c) => spec_parse_access(p@) == Some(c@),
            None => spec_parse_access(p@) is None,
        },
{
    let n = p.unicode_len();
    if n < 1 {
        return None;
    }
    if p.get_char(0) != 'A' {
        return None;
    }
    let (sub, o) = match parse_str_field(p, 1, n) {
        None => {
            return None;
        },
        Some(pair) => pair,
    };
    if n - o < 48 {
        return None;
    }
    let exp128 = match parse_hex(p, o, 16) {
        None => {
            return None;
        },
        Some(v) => v,
    };
    let uid = match parse_hex(p, o + 16, 32) {
        None => {
            return None;
        },
        Some(v) => v,
    };
    let (name, o3) = match parse_str_field(p, o + 48, n) {
        None => {
            return None;
        },
        Some(pair) => pair,
    };
    if n - o3 < 2 {
        return None;
    }
    let tier128 = match parse_hex(p, o3, 2) {
        None => {
            return None;
        },
        Some(v) => v,
    };
    if n - o3 != 3 {
        return None;
    }
    let ac = p.get_char(o3 + 2);
    if ac != '1' && ac != '0' {
        return None;
    }
    proof {
        lemma_hex_val_bound(p@.subrange(o as int, o as int + 16));
        lemma_pow16_16();
        lemma_hex_val_bound(p@.subrange(o3 as int, o3 as int + 2));
        lemma_pow16_2();
    }
    Some(
        AccessClaims {
            sub,
            exp: exp128 as u64,
            user_id: uid,
            name,
            tier: tier128 as u8,
            admin: ac == '1',
        },
    )
}

/// Decodes a refresh payload; agrees with `spec_parse_refresh` exactly.
pub fn parse_refresh_payload(p: &str) -> (r: Option<RefreshClaims>)
    ensures
        match r {
            Some(c) => spec_parse_refresh(p@) == Some(c@),
            None => spec_parse_refresh(p@) is None,
        },
{
    let n = p.unicode_len();
    if n < 1 {
        return None;
    }
    if p.get_char(0) != 'R' {
        return None;
    }
    let (sub, o) = match parse_str_field(p, 1, n) {
        None => {
            return None;
        },
        Some(pair) => pair,
    };
    if n - o < 80 {
        return None;
    }
    let exp128 = match parse_hex(p, o, 16) {
        None => {
            return None;
        },
        Some(v) => v,
    };
    let uid = match parse_hex(p, o + 16, 32) {
        None => {
            return None;
        },
        Some(v) => v,
    };
    let jti = match parse_hex(p, o + 48, 32) {
        None => {
            return None;
        },
        Some(v) => v,
    };
    if n - o != 80 {
        return None;
    }
    proof {
        lemma_hex_val_bound(p@.subrange(o as int, o as int + 16));
        lemma_pow16_16();
    }
    Some(RefreshClaims { sub, exp: exp128 as u64, jti, user_id: uid })
}

/// The encoded sub field sits at position 1 of either payload kind.
proof fn lemma_sub_field_at_one(head: char, c_sub: Seq<char>, rest: Seq<char>)
    requires
        c_sub.len() < pow16(16),
    ensures
        ({
            let p = seq![head] + str_field(c_sub) + rest;
            sfield_ok(p, 1) && sfield_val(p, 1) == c_sub && sfield_end(p, 1) == 17 + c_sub.len()
        }),
{
    let p = seq![head] + str_field(c_sub) + rest;
    lemma_hex_rep_len(c_sub.len(), 16);
    assert(p.subrange(1, 17) =~= hex_rep(c_sub.len(), 16));
    lemma_hex_roundtrip(c_sub.len(), 16);
    assert(hex_at(p, 1, 16) == c_sub.len());
    assert(p.subrange(17, 17 + c_sub.len() as int) =~= c_sub);
}

/// Decoding inverts encoding for any access claim set whose strings have
/// lengths the sixteen-digit field can carry.
pub proof fn lemma_access_roundtrip(c: AccessClaimsView)
    requires
        c.sub.len() < pow16(16),
        c.name.len() < pow16(16),
    ensures
        spec_parse_access(encode_access(c)) == Some(c),
{
    let p = encode_access(c);
    let l1 = c.sub.len() as int;
    let l2 = c.name.len() as int;
    lemma_hex_rep_len(c.sub.len(), 16);
    lemma_hex_rep_len(c.exp as nat, 16);
    lemma_hex_rep_len(c.user_id as nat, 32);
    lemma_hex_rep_len(c.name.len(), 16);
    lemma_hex_rep_len(c.tier as nat, 2);
    assert(p.len() == 84 + l1 + l2);
    assert(p[0] == 'A');

    let rest = hex_rep(c.exp as nat, 16) + hex_rep(c.user_id as nat, 32) + str_field(c.name)
        + hex_rep(c.tier as nat, 2) + seq![if c.admin {
        '1'
    } else {
        '0'
    }];
    assert(p =~= seq!['A'] + str_field(c.sub) + rest);
    lemma_sub_field_at_one('A', c.sub, rest);
    let o = 17 + l1;
    assert(sfield_end(p, 1) == o);

    assert(p.subrange(o, o + 16) =~= hex_rep(c.exp as nat, 16));
    lemma_pow16_16();
    lemma_hex_roundtrip(c.exp as nat, 16);
    assert(hex_at(p, o, 16) == c.exp as nat);

    assert(p.subrange(o + 16, o + 48) =~= hex_rep(c.user_id as nat, 32));
    lemma_pow16_32();
    lemma_hex_roundtrip(c.user_id as nat, 32);
    assert(hex_at(p, o + 16, 32) == c.user_id as nat);

    let o2 = o + 48;
    assert(p.subrange(o2, o2 + 16) =~= hex_rep(c.name.len(), 16));
    lemma_hex_roundtrip(c.name.len(), 16);
    assert(hex_at(p, o2, 16) == l2);
    assert(p.subrange(o2 + 16, o2 + 16 + l2) =~= c.name);
    assert(sfield_ok(p, o2));
    assert(sfield_val(p, o2) == c.name);
    let o3 = o2 + 16 + l2;
    assert(sfield_end(p, o2) == o3);

    assert(p.subrange(o3, o3 + 2) =~= hex_rep(c.tier as nat, 2));
    lemma_pow16_2();
    lemma_hex_roundtrip(c.tier as nat, 2);
    assert(hex_at(p, o3, 2) == c.tier as nat);

    assert(p[o3 + 2] == (if c.admin {
        '1'
    } else {
        '0'
    }));
    assert(spec_parse_access(p) == Some(c));
}

/// Decoding inverts encoding for any refresh claim set whose subject has a
/// length the sixteen-digit field can carry.
pub proof fn lemma_refresh_roundtrip(c: RefreshClaimsView)
    requires
        c.sub.len() < pow16(16),
    ensures
        spec_parse_refresh(encode_refresh(c)) == Some(c),
{
    let p = encode_refresh(c);
    let l1 = c.sub.len() as int;
    lemma_hex_rep_len(c.sub.len(), 16);
    lemma_hex_rep_len(c.exp as nat, 16);
    lemma_hex_rep_len(c.user_id as nat, 32);
    lemma_hex_rep_len(c.jti as nat, 32);
    assert(p.len() == 97 + l1);
    assert(p[0] == 'R');

    let rest = hex_rep(c.exp as nat, 16) + hex_rep(c.user_id as nat, 32) + hex_rep(
        c.jti as nat,
        32,
    );
    assert(p =~= seq!['R'] + str_field(c.sub) + rest);
    lemma_sub_field_at_one('R', c.sub, rest);
    let o = 17 + l1;
    assert(sfield_end(p, 1) == o);

    assert(p.subrange(o, o + 16) =~= hex_rep(c.exp as nat, 16));
    lemma_pow16_16();
    lemma_hex_roundtrip(c.exp as nat, 16);
    assert(hex_at(p, o, 16) == c.exp as nat);

    assert(p.subrange(o + 16, o + 48) =~= hex_rep(c.user_id as nat, 32));
    lemma_pow16_32();
    lemma_hex_roundtrip(c.user_id as nat, 32);
    assert(hex_at(p, o + 16, 32) == c.user_id as nat);

    assert(p.subrange(o + 48, o + 80) =~= hex_rep(c.jti as nat, 32));
    lemma_hex_roundtrip(c.jti as nat, 32);
    assert(hex_at(p, o + 48, 32) == c.jti as nat);

    assert(spec_parse_refresh(p) == Some(c));
}

} // verus!
