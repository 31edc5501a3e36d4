use vstd::prelude::*;
use vstd::string::*;
use crate::perm::{permission_satisfies, Permission};
use crate::token::{token_expiry, Token};

verus! {

// ---------------------------------------------------------------------------
// Substring tests used on request paths
// ---------------------------------------------------------------------------

/// `p` occurs somewhere in `s`.
pub open spec fn has_substring(s: Seq<char>, p: Seq<char>) -> bool {
    exists|k: int| 0 <= k <= s.len() - p.len() && #[trigger] s.subrange(k, k + p.len()) == p
}

/// Substring search, by scanning every starting position.
pub fn contains_str(s: &str, p: &str) -> (r: bool)
    ensures
        r == has_substring(s@, p@),
{
    let n = s.unicode_len();
    let m = p.unicode_len();
    if m > n {
        proof {
            assert(!has_substring(s@, p@));
        }
        return false;
    }
    if m == 0 {
        proof {
            let k0: int = 0;
            assert(s@.subrange(k0, k0 + p@.len()) =~= p@);
            assert(has_substring(s@, p@));
        }
        return true;
    }
    let mut k: usize = 0;
    while k <= n - m
        invariant
            n == s@.len(),
            m == p@.len(),
            1 <= m <= n,
            0 <= k <= n - m + 1,
            forall|k2: int| 0 <= k2 < k ==> #[trigger] s@.subrange(k2, k2 + p@.len()) != p@,
        decreases n - k,
    {
        let mut j: usize = 0;
        let mut hit = true;
        while j < m
            invariant
                n == s@.len(),
                m == p@.len(),
                0 <= k <= n - m,
                0 <= j <= m,
                hit ==> forall|j2: int| 0 <= j2 < j ==> s@[k + j2] == p@[j2],
                !hit ==> s@.subrange(k as int, k + p@.len()) != p@,
            decreases m - j,
        {
            if s.get_char(k + j) != p.get_char(j) {
                proof {
                    assert(s@.subrange(k as int, k + p@.len())[j as int] == s@[k + j]);
                }
                hit = false;
                j = m;
            } else {
                j = j + 1;
            }
        }
        if hit {
            proof {
                assert(s@.subrange(k as int, k + p@.len()) =~= p@);
            }
            return true;
        }
        k = k + 1;
    }
    proof {
        assert forall|k2: int| 0 <= k2 <= s@.len() - p@.len() implies #[trigger] s@.subrange(
            k2,
            k2 + p@.len(),
        ) != p@ by {
            assert(k2 < k);
        }
    }
    false
}

/// Paths that must stay reachable without a session: the OIDC callback and
/// the static assets.
pub open spec fn is_bypass_path(path: Seq<char>) -> bool {
    has_substring(path, "oidc"@) || has_substring(path, "static"@)
}

/// Paths of the club-switch operation, whose response must not get the
/// sliding-expiry cookie on top of its own.
pub open spec fn is_club_path(path: Seq<char>) -> bool {
    has_substring(path, "club"@)
}

// ---------------------------------------------------------------------------
// The per-request guard
// ---------------------------------------------------------------------------

/// Configuration of the guard around one route group: the least permission
/// the group demands, and where to send a browser that has no session.
pub struct AuthMiddleware {
    pub permission: Permission,
    pub auth_url: String,
}

impl AuthMiddleware {
    pub fn new(auth_url: String, permission: Permission) -> (r: AuthMiddleware)
        ensures
            r.auth_url == auth_url,
            r.permission == permission,
    {
        AuthMiddleware { auth_url, permission }
    }

    /// The per-request stage built from this configuration, as the request
    /// pipeline instantiates it.
    pub fn new_inner(&self) -> (r: InnerAuthMiddleware)
        ensures
            r.auth_url == self.auth_url,
            r.permission == self.permission,
    {
        InnerAuthMiddleware { permission: self.permission, auth_url: self.auth_url.clone() }
    }
}

/// The guard as it sits in the pipeline; the wrapped service stands outside
/// the library, next to this configuration.
pub struct InnerAuthMiddleware {
    pub permission: Permission,
    pub auth_url: String,
}

/// `true` when the token's active permission does NOT satisfy the demanded
/// level — the polarity its caller branches on to deny.
pub fn check_permission(permission: Permission, token: Token) -> (r: bool)
    ensures
        r == !permission_satisfies(token.active_permission, permission),
{
    match permission {
        Permission::Read => !matches!(
            token.active_permission,
            Permission::Read | Permission::ReadWrite
        ),
        Permission::ReadWrite => !matches!(token.active_permission, Permission::ReadWrite),
    }
}

/// What the guard does with one request.
pub enum AuthDecision {
    /// Let it through unchecked: login and static paths.
    Bypass,
    /// Development mode with no cookie: a fixed fake session is minted.
    FakeLogin,
    /// Invoke the wrapped handler under this club; re-sign the cookie with
    /// a fresh expiry afterwards unless the request is a club switch.
    Grant { active_club: String, refresh: bool },
    /// Deny with a plain 401, the development-mode denial.
    DenyUnauthorized,
    /// Deny by redirecting the browser to the login URL.
    DenyRedirect { location: String },
}

impl InnerAuthMiddleware {
    /// The whole per-request decision, from the request path, the token its
    /// cookie verified to (if any), and whether real authentication is
    /// switched off. Every denial is side-effect-free; only `Grant` reaches
    /// the wrapped handler.
    pub fn decide(&self, path: &str, token: Option<Token>, fake_mode: bool) -> (r: AuthDecision)
        ensures
            fake_mode && token is None ==> r is FakeLogin,
            !(fake_mode && token is None) && is_bypass_path(path@) ==> r is Bypass,
            !(fake_mode && token is None) && !is_bypass_path(path@) && (token matches Some(t)
                && permission_satisfies(t.active_permission, self.permission)) ==> (r matches
                AuthDecision::Grant { active_club, refresh } && active_club@
                == token.unwrap().active_club@ && refresh == !is_club_path(path@)),
            !(fake_mode && token is None) && !is_bypass_path(path@) && (match token {
                None => true,
                Some(t) => !permission_satisfies(t.active_permission, self.permission),
            }) ==> (if fake_mode {
                r is DenyUnauthorized
            } else {
                r matches AuthDecision::DenyRedirect { location } && location@ == self.auth_url@
            }),
    {
        if fake_mode && token.is_none() {
            return AuthDecision::FakeLogin;
        }
        if contains_str(path, "oidc") || contains_str(path, "static") {
            return AuthDecision::Bypass;
        }
        match token {
            Some(t) => {
                let active_club = t.active_club.clone();
                if check_permission(self.permission, t) {
                    if fake_mode {
                        AuthDecision::DenyUnauthorized
                    } else {
                        AuthDecision::DenyRedirect { location: self.auth_url.clone() }
                    }
                } else {
                    AuthDecision::Grant { active_club, refresh: !contains_str(path, "club") }
                }
            },
            None => {
                if fake_mode {
                    AuthDecision::DenyUnauthorized
                } else {
                    AuthDecision::DenyRedirect { location: self.auth_url.clone() }
                }
            },
        }
    }
}

/// The fixed development session: the default grants for subject `ture`.
pub fn fake_session(now: u64) -> (r: Token)
    ensures
        r.sub@ == "ture"@,
        r.exp == token_expiry(now),
        r.permissions@ =~= seq![("metadorerna"@, Permission::Read)],
        r.active_club@ == "metadorerna"@,
        r.active_permission == Permission::Read,
        r.wf(),
{
    let permissions = Permission::default_privlages();
    Token::new_at(String::from_str("ture"), permissions, now).unwrap()
}

} // verus!
