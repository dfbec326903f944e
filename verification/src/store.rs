//! The user store as the session core sees it: a keyed collection of
//! identities, read by shortcode or id, written only in the two fields the
//! core owns, the current rotation id and the last-login time.

use vstd::prelude::*;
use crate::hexfmt::str_eq;

verus! {

/// One identity as the core reads it from the store.
pub struct Identity {
    pub id: u128,
    /// Login name; unique across the store.
    pub shortcode: String,
    /// Salted, self-describing password hash string.
    pub password_hash: String,
    pub display_name: String,
    /// Membership tier ordinal.
    pub tier: u8,
    pub is_admin: bool,
    /// The rotation id of the one outstanding refresh token, if any.
    pub current_refresh_id: Option<u128>,
    /// Seconds since the Unix epoch of the last successful login.
    pub last_login: Option<u64>,
}

pub ghost struct IdentityView {
    pub id: u128,
    pub shortcode: Seq<char>,
    pub password_hash: Seq<char>,
    pub display_name: Seq<char>,
    pub tier: u8,
    pub is_admin: bool,
    pub current_refresh_id: Option<u128>,
    pub last_login: Option<u64>,
}

impl View for Identity {
    type V = IdentityView;

    open spec fn view(&self) -> IdentityView {
        IdentityView {
            id: self.id,
            shortcode: self.shortcode@,
            password_hash: self.password_hash@,
            display_name: self.display_name@,
            tier: self.tier,
            is_admin: self.is_admin,
            current_refresh_id: self.current_refresh_id,
            last_login: self.last_login,
        }
    }
}

/// The store: a sequence of identities with unique ids and shortcodes.
pub struct UserStore {
    pub users: Vec<Identity>,
}

impl View for UserStore {
    type V = Seq<IdentityView>;

    open spec fn view(&self) -> Seq<IdentityView> {
        Seq::new(self.users@.len(), |i: int| self.users@[i]@)
    }
}

/// Ids and shortcodes identify at most one identity each.
pub open spec fn wf(s: Seq<IdentityView>) -> bool {
    forall|i: int, j: int|
        0 <= i < j < s.len() ==> s[i].id != s[j].id && s[i].shortcode != s[j].shortcode
}

pub open spec fn has_shortcode(s: Seq<IdentityView>, sc: Seq<char>) -> bool {
    exists|i: int| 0 <= i < s.len() && s[i].shortcode == sc
}

/// The index of the identity with this shortcode; meaningful under `wf`
/// where it is unique.
pub open spec fn idx_by_shortcode(s: Seq<IdentityView>, sc: Seq<char>) -> int {
    choose|i: int| 0 <= i < s.len() && s[i].shortcode == sc
}

pub open spec fn has_id(s: Seq<IdentityView>, id: u128) -> bool {
    exists|i: int| 0 <= i < s.len() && s[i].id == id
}

/// The index of the identity with this id; meaningful under `wf` where it
/// is unique.
pub open spec fn idx_by_id(s: Seq<IdentityView>, id: u128) -> int {
    choose|i: int| 0 <= i < s.len() && s[i].id == id
}

/// Under `wf`, an index whose identity carries the shortcode is the index.
pub proof fn lemma_shortcode_index_unique(s: Seq<IdentityView>, i: int)
    requires
        wf(s),
        0 <= i < s.len(),
    ensures
        has_shortcode(s, s[i].shortcode),
        idx_by_shortcode(s, s[i].shortcode) == i,
{
    let sc = s[i].shortcode;
    assert(has_shortcode(s, sc));
    let j = idx_by_shortcode(s, sc);
    if i != j {
        assert(s[i].shortcode != s[j].shortcode);
    }
}

/// Under `wf`, an index whose identity carries the id is the index.
pub proof fn lemma_id_index_unique(s: Seq<IdentityView>, i: int)
    requires
        wf(s),
        0 <= i < s.len(),
    ensures
        has_id(s, s[i].id),
        idx_by_id(s, s[i].id) == i,
{
    assert(has_id(s, s[i].id));
    let j = idx_by_id(s, s[i].id);
    if i != j {
        assert(s[i].id != s[j].id);
    }
}

/// Overwriting non-key fields of one identity keeps the store well formed.
pub proof fn lemma_wf_update_same_keys(s: Seq<IdentityView>, i: int, v: IdentityView)
    requires
        wf(s),
        0 <= i < s.len(),
        v.id == s[i].id,
        v.shortcode == s[i].shortcode,
    ensures
        wf(s.update(i, v)),
{
    let s1 = s.update(i, v);
    assert forall|a: int, b: int| 0 <= a < b < s1.len() implies s1[a].id != s1[b].id
        && s1[a].shortcode != s1[b].shortcode by {
        assert(s[a].id != s[b].id && s[a].shortcode != s[b].shortcode);
    }
}

impl UserStore {
    pub fn new() -> (r: UserStore)
        ensures
            r@.len() == 0,
            wf(r@),
    {
        UserStore { users: Vec::new() }
    }

    /// Adds an identity; refused when its id or shortcode is taken.
    pub fn add_identity(&mut self, u: Identity) -> (r: bool)
        requires
            wf(old(self)@),
        ensures
            wf(final(self)@),
            r == (!has_id(old(self)@, u@.id) && !has_shortcode(old(self)@, u@.shortcode)),
            r ==> final(self)@ == old(self)@.push(u@),
            !r ==> final(self)@ == old(self)@,
    {
        let n = self.users.len();
        let mut i: usize = 0;
        while i < n
            invariant
                i <= n,
                n == self@.len(),
                self@ == old(self)@,
                wf(old(self)@),
                forall|j: int|
                    0 <= j < i ==> self@[j].id != u@.id && self@[j].shortcode != u@.shortcode,
            decreases n - i,
        {
            let id_taken = self.users[i].id == u.id;
            let sc_taken = str_eq(self.users[i].shortcode.as_str(), u.shortcode.as_str());
            if id_taken || sc_taken {
                proof {
                    assert(0 <= i < old(self)@.len());
                    if id_taken {
                        assert(old(self)@[i as int].id == u@.id);
                        assert(has_id(old(self)@, u@.id));
                    } else {
                        assert(old(self)@[i as int].shortcode == u@.shortcode);
                        assert(has_shortcode(old(self)@, u@.shortcode));
                    }
                }
                return false;
            }
            i = i + 1;
        }
        self.users.push(u);
        proof {
            assert(final(self)@ =~= old(self)@.push(u@));
            let s1 = old(self)@.push(u@);
            assert forall|a: int, b: int| 0 <= a < b < s1.len() implies s1[a].id != s1[b].id
                && s1[a].shortcode != s1[b].shortcode by {
                if b == s1.len() - 1 {
                    assert(s1[a] == old(self)@[a]);
                }
            }
        }
        true
    }

    /// Looks an identity up by its login shortcode.
    pub fn find_by_shortcode(&self, sc: &str) -> (r: Option<usize>)
        ensures
            r is Some <==> has_shortcode(self@, sc@),
            r matches Some(i) ==> i < self@.len() && self@[i as int].shortcode == sc@,
    {
        let n = self.users.len();
        let mut i: usize = 0;
        while i < n
            invariant
                i <= n,
                n == self@.len(),
                forall|j: int| 0 <= j < i ==> self@[j].shortcode != sc@,
            decreases n - i,
        {
            if str_eq(self.users[i].shortcode.as_str(), sc) {
                return Some(i);
            }
            i = i + 1;
        }
        None
    }

    /// Looks an identity up by its id.
    pub fn find_by_id(&self, id: u128) -> (r: Option<usize>)
        ensures
            r is Some <==> has_id(self@, id),
            r matches Some(i) ==> i < self@.len() && self@[i as int].id == id,
    {
        let n = self.users.len();
        let mut i: usize = 0;
        while i < n
            invariant
                i <= n,
                n == self@.len(),
                forall|j: int| 0 <= j < i ==> self@[j].id != id,
            decreases n - i,
        {
            if self.users[i].id == id {
                return Some(i);
            }
            i = i + 1;
        }
        None
    }

    /// Reads the identity at an index.
    pub fn get(&self, i: usize) -> (r: &Identity)
        requires
            i < self@.len(),
        ensures
            r@ == self@[i as int],
    {
        &self.users[i]
    }

    /// Overwrites the identity's current rotation id, invalidating whatever
    /// refresh token carried the previous one.
    pub fn update_refresh_id(&mut self, user_id: u128, new_id: u128) -> (r: bool)
        requires
            wf(old(self)@),
        ensures
            wf(final(self)@),
            r == has_id(old(self)@, user_id),
            !r ==> final(self)@ == old(self)@,
            r ==> ({
                let i = idx_by_id(old(self)@, user_id);
                final(self)@ =~= old(self)@.update(
                    i,
                    IdentityView { current_refresh_id: Some(new_id), ..old(self)@[i] },
                )
            }),
    {
        match self.find_by_id(user_id) {
            Option::None => false,
            Option::Some(i) => {
                self.users[i].current_refresh_id = Some(new_id);
                proof {
                    lemma_id_index_unique(old(self)@, i as int);
                    assert(final(self)@ =~= old(self)@.update(
                        i as int,
                        IdentityView { current_refresh_id: Some(new_id), ..old(self)@[i as int] },
                    ));
                }
                true
            },
        }
    }

    /// Records a successful login time; best effort, the caller ignores a
    /// miss.
    pub fn touch_last_login(&mut self, user_id: u128, now: u64) -> (r: bool)
        requires
            wf(old(self)@),
        ensures
            wf(final(self)@),
            r == has_id(old(self)@, user_id),
            !r ==> final(self)@ == old(self)@,
            r ==> ({
                let i = idx_by_id(old(self)@, user_id);
                final(self)@ =~= old(self)@.update(
                    i,
                    IdentityView { last_login: Some(now), ..old(self)@[i] },
                )
            }),
    {
        match self.find_by_id(user_id) {
            Option::None => false,
            Option::Some(i) => {
                self.users[i].last_login = Some(now);
                proof {
                    lemma_id_index_unique(old(self)@, i as int);
                    assert(final(self)@ =~= old(self)@.update(
                        i as int,
                        IdentityView { last_login: Some(now), ..old(self)@[i as int] },
                    ));
                }
                true
            },
        }
    }
}

} // verus!
