use vstd::prelude::*;
use crate::error::Error;
use crate::perm::Permission;
use crate::token::{spec_cookie_value, SessionCookie, Token};

verus! {

/// One club grant as the clubs listing reports it.
pub struct Club {
    name: String,
    permission: Permission,
}

impl View for Club {
    type V = (Seq<char>, Permission);

    closed spec fn view(&self) -> (Seq<char>, Permission) {
        (self.name@, self.permission)
    }
}

impl Club {
    pub fn name(&self) -> (r: &String)
        ensures
            r@ == self@.0,
    {
        &self.name
    }

    pub fn permission(&self) -> (r: Permission)
        ensures
            r == self@.1,
    {
        self.permission
    }
}

impl From<(String, Permission)> for Club {
    fn from(value: (String, Permission)) -> (r: Club) {
        Club { name: value.0, permission: value.1 }
    }
}

impl vstd::std_specs::convert::FromSpecImpl<(String, Permission)> for Club {
    closed spec fn obeys_from_spec() -> bool {
        true
    }

    closed spec fn from_spec(value: (String, Permission)) -> Club {
        Club { name: value.0, permission: value.1 }
    }
}

/// What `GET /clubs` answers: every grant of the session, and the club the
/// session currently acts under.
pub struct ClubGetResponse {
    pub active: Club,
    pub clubs: Vec<Club>,
}

/// The caller's club list and active club, straight from the verified
/// session token.
pub fn get_clubs(token: &Token) -> (r: ClubGetResponse)
    ensures
        r.active@ == (token.active_club@, token.active_permission),
        r.clubs@.len() == token.permissions@.len(),
        forall|i: int| 0 <= i < r.clubs@.len() ==> #[trigger] r.clubs@[i]@ == token.permissions@[i],
    {
    let n = token.permissions.len();
    let mut clubs: Vec<Club> = Vec::new();
    let mut i: usize = 0;
    while i < n
        invariant
            n == token.permissions@.len(),
            0 <= i <= n,
            clubs@.len() == i,
            forall|j: int| 0 <= j < i ==> #[trigger] clubs@[j]@ == token.permissions@[j],
        decreases n - i,
    {
        let entry = token.permissions.entry_at(i);
        clubs.push(Club { name: entry.0, permission: entry.1 });
        i = i + 1;
    }
    let active = Club {
        name: token.active_club.clone(),
        permission: token.active_permission,
    };
    ClubGetResponse { active, clubs }
}

/// Switch the session to another club and re-sign the cookie, leaving the
/// expiry as it was. A club the session holds no grant for is refused as
/// `Unauthorized` with the token untouched and no cookie produced.
pub fn set_club(token: &mut Token, club: String, key: &str) -> (r: Result<SessionCookie, Error>)
    ensures
        match r {
            Ok(c) => {
                &&& crate::perm::grants_lookup(old(token).permissions@, club@) is Some
                &&& final(token).active_club@ == club@
                &&& final(token).active_permission == crate::perm::grants_lookup(
                    old(token).permissions@,
                    club@,
                ).unwrap()
                &&& final(token).sub == old(token).sub
                &&& final(token).exp == old(token).exp
                &&& final(token).permissions == old(token).permissions
                &&& final(token).wf()
                &&& c.value@ == spec_cookie_value(final(token).model(), key@)
                &&& c.name@ == "token"@
                &&& c.http_only && c.secure && c.same_site_lax
                &&& c.path@ == "/"@
            },
            Err(e) => {
                &&& e is Unauthorized
                &&& crate::perm::grants_lookup(old(token).permissions@, club@) is None
                &&& *final(token) == *old(token)
            },
        },
{
    match token.set_active_club(club) {
        Ok(()) => Ok(token.cookie(key)),
        Err(e) => Err(e),
    }
}

} // verus!
