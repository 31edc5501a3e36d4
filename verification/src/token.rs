use vstd::prelude::*;
use vstd::string::*;
use crate::codec::{
    enc_num, enc_str, parse_num, parse_str, lemma_parse_num_round, lemma_parse_str_round,
    parse_num_at, parse_str_at, push_field, push_num,
};
use crate::error::Error;
use crate::outside::{hs256_sign, hs256_tag, now_timestamp, push_char};
use crate::perm::{entries_view, grants_lookup, Permission, PermissionMap};

verus! {

// ---------------------------------------------------------------------------
// The session token and its mathematical model
// ---------------------------------------------------------------------------

/// Stateless session credential: who is logged in, until when, every club
/// grant the subject holds, and which club the session currently acts under.
#[derive(Clone)]
pub struct Token {
    pub sub: String,
    pub exp: u64,
    pub permissions: PermissionMap,
    pub active_club: String,
    pub active_permission: Permission,
}

/// Abstract value of a [`Token`]: the same five facts over sequences.
pub struct TokenModel {
    pub sub: Seq<char>,
    pub exp: u64,
    pub grants: Seq<(Seq<char>, Permission)>,
    pub active_club: Seq<char>,
    pub active_permission: Permission,
}

/// The token invariant: the active club is granted, and the cached active
/// permission is exactly what the grants map it to.
pub open spec fn token_model_wf(m: TokenModel) -> bool {
    grants_lookup(m.grants, m.active_club) == Some(m.active_permission)
}

/// Machine-size side of validity: every piece a token writes into its
/// payload has a length a `u64` can carry.
pub open spec fn token_model_sized(m: TokenModel) -> bool {
    &&& m.sub.len() <= u64::MAX
    &&& m.grants.len() <= u64::MAX
    &&& m.active_club.len() <= u64::MAX
    &&& (forall|i: int| 0 <= i < m.grants.len() ==> #[trigger] m.grants[i].0.len() <= u64::MAX)
    &&& payload_of(m).len() <= u64::MAX
}

impl Token {
    pub open spec fn model(&self) -> TokenModel {
        TokenModel {
            sub: self.sub@,
            exp: self.exp,
            grants: self.permissions@,
            active_club: self.active_club@,
            active_permission: self.active_permission,
        }
    }

    pub open spec fn wf(&self) -> bool {
        token_model_wf(self.model())
    }
}

// ---------------------------------------------------------------------------
// Payload text: how a token is written and read back
// ---------------------------------------------------------------------------

/// One character for the permission level, `r` or `w`.
pub open spec fn enc_perm(p: Permission) -> Seq<char> {
    match p {
        Permission::Read => seq!['r'],
        Permission::ReadWrite => seq!['w'],
    }
}

/// Grants in order: each club as a string field, then its level character.
pub open spec fn enc_grants(gs: Seq<(Seq<char>, Permission)>) -> Seq<char>
    decreases gs.len(),
{
    if gs.len() == 0 {
        Seq::empty()
    } else {
        enc_str(gs[0].0) + enc_perm(gs[0].1) + enc_grants(gs.skip(1))
    }
}

/// The whole signed payload: subject, expiry, grant count, the grants, and
/// the active club with its level.
pub open spec fn payload_of(m: TokenModel) -> Seq<char> {
    enc_str(m.sub) + enc_num(m.exp as nat) + enc_num(m.grants.len()) + enc_grants(m.grants)
        + enc_str(m.active_club) + enc_perm(m.active_permission)
}

pub open spec fn parse_perm(s: Seq<char>) -> Option<(Permission, Seq<char>)> {
    if s.len() == 0 {
        None
    } else if s[0] == 'r' {
        Some((Permission::Read, s.skip(1)))
    } else if s[0] == 'w' {
        Some((Permission::ReadWrite, s.skip(1)))
    } else {
        None
    }
}

pub open spec fn parse_grants(s: Seq<char>, n: nat) -> Option<
    (Seq<(Seq<char>, Permission)>, Seq<char>),
>
    decreases n,
{
    if n == 0 {
        Some((Seq::empty(), s))
    } else {
        match parse_str(s) {
            None => None,
            Some((name, r1)) => match parse_perm(r1) {
                None => None,
                Some((p, r2)) => match parse_grants(r2, (n - 1) as nat) {
                    None => None,
                    Some((gs, r3)) => Some((seq![(name, p)] + gs, r3)),
                },
            },
        }
    }
}

/// Read a whole payload back; `None` unless every field is present, nothing
/// trails, and the active club is granted with exactly the stated level.
pub open spec fn parse_token(s: Seq<char>) -> Option<TokenModel> {
    match parse_str(s) {
        None => None,
        Some((sub, r1)) => match parse_num(r1) {
            None => None,
            Some((exp, r2)) => match parse_num(r2) {
                None => None,
                Some((count, r3)) => match parse_grants(r3, count as nat) {
                    None => None,
                    Some((gs, r4)) => match parse_str(r4) {
                        None => None,
                        Some((club, r5)) => match parse_perm(r5) {
                            None => None,
                            Some((p, r6)) => if r6.len() != 0 {
                                None
                            } else if grants_lookup(gs, club) != Some(p) {
                                None
                            } else {
                                Some(
                                    TokenModel {
                                        sub,
                                        exp,
                                        grants: gs,
                                        active_club: club,
                                        active_permission: p,
                                    },
                                )
                            },
                        },
                    },
                },
            },
        },
    }
}

/// The cookie text: the payload as a string field, then the HMAC tag of the
/// payload under `key` as the untouched remainder.
pub open spec fn spec_cookie_value(m: TokenModel, key: Seq<char>) -> Seq<char> {
    enc_str(payload_of(m)) + hs256_tag(payload_of(m), key)
}

/// What verification accepts at time `now`: a well-formed payload whose tag
/// is the payload's tag under `key`, and whose expiry is still ahead.
pub open spec fn spec_verify(c: Seq<char>, key: Seq<char>, now: u64) -> Option<TokenModel> {
    match parse_str(c) {
        None => None,
        Some((payload, tag)) => if tag != hs256_tag(payload, key) {
            None
        } else {
            match parse_token(payload) {
                None => None,
                Some(m) => if now < m.exp {
                    Some(m)
                } else {
                    None
                },
            }
        },
    }
}

// ---------------------------------------------------------------------------
// Round-trip lemmas
// ---------------------------------------------------------------------------

pub proof fn lemma_parse_perm_round(p: Permission, rest: Seq<char>)
    ensures
        parse_perm(enc_perm(p) + rest) == Some((p, rest)),
{
    let s = enc_perm(p) + rest;
    assert(s.skip(1) =~= rest);
}

pub proof fn lemma_parse_grants_round(gs: Seq<(Seq<char>, Permission)>, rest: Seq<char>)
    requires
        forall|i: int| 0 <= i < gs.len() ==> #[trigger] gs[i].0.len() <= u64::MAX,
    ensures
        parse_grants(enc_grants(gs) + rest, gs.len()) == Some((gs, rest)),
    decreases gs.len(),
{
    if gs.len() == 0 {
        assert(enc_grants(gs) + rest =~= rest);
        assert(parse_grants(rest, 0) == Some((Seq::<(Seq<char>, Permission)>::empty(), rest)));
        assert(gs =~= Seq::<(Seq<char>, Permission)>::empty());
    } else {
        let tail = gs.skip(1);
        let r1 = enc_perm(gs[0].1) + enc_grants(tail) + rest;
        assert(enc_grants(gs) + rest =~= enc_str(gs[0].0) + r1);
        lemma_parse_str_round(gs[0].0, r1);
        let r2 = enc_grants(tail) + rest;
        assert(r1 =~= enc_perm(gs[0].1) + r2);
        lemma_parse_perm_round(gs[0].1, r2);
        assert forall|i: int| 0 <= i < tail.len() implies #[trigger] tail[i].0.len()
            <= u64::MAX by {
            assert(tail[i] == gs[i + 1]);
        }
        lemma_parse_grants_round(tail, rest);
        assert(seq![(gs[0].0, gs[0].1)] + tail =~= gs);
    }
}

/// Reading a payload back yields exactly the model that wrote it.
#[verifier::rlimit(50)]
pub proof fn lemma_parse_token_round(m: TokenModel)
    requires
        token_model_wf(m),
        token_model_sized(m),
    ensures
        parse_token(payload_of(m)) == Some(m),
{
    let s = payload_of(m);
    let r1 = enc_num(m.exp as nat) + enc_num(m.grants.len()) + enc_grants(m.grants) + enc_str(
        m.active_club,
    ) + enc_perm(m.active_permission);
    assert(s =~= enc_str(m.sub) + r1);
    lemma_parse_str_round(m.sub, r1);
    let r2 = enc_num(m.grants.len()) + enc_grants(m.grants) + enc_str(m.active_club) + enc_perm(
        m.active_permission,
    );
    assert(r1 =~= enc_num(m.exp as nat) + r2);
    lemma_parse_num_round(m.exp, r2);
    let r3 = enc_grants(m.grants) + enc_str(m.active_club) + enc_perm(m.active_permission);
    assert(r2 =~= enc_num(m.grants.len()) + r3);
    lemma_parse_num_round(m.grants.len() as u64, r3);
    let r4 = enc_str(m.active_club) + enc_perm(m.active_permission);
    assert(r3 =~= enc_grants(m.grants) + r4);
    lemma_parse_grants_round(m.grants, r4);
    let r5 = enc_perm(m.active_permission);
    assert(r4 =~= enc_str(m.active_club) + r5);
    lemma_parse_str_round(m.active_club, r5);
    lemma_parse_perm_round(m.active_permission, Seq::<char>::empty());
    assert(r5 =~= enc_perm(m.active_permission) + Seq::<char>::empty());
}

/// Within one step of the grants loop: writing one more grant extends the
/// encoded prefix by that grant's two fields.
pub proof fn lemma_enc_grants_snoc(gs: Seq<(Seq<char>, Permission)>, i: int)
    requires
        0 <= i < gs.len(),
    ensures
        enc_grants(gs.take(i + 1)) == enc_grants(gs.take(i)) + enc_str(gs[i].0) + enc_perm(
            gs[i].1,
        ),
    decreases i,
{
    if i == 0 {
        assert(gs.take(0) =~= Seq::<(Seq<char>, Permission)>::empty());
        assert(gs.take(1)[0] == gs[0]);
        assert(gs.take(1).skip(1) =~= Seq::<(Seq<char>, Permission)>::empty());
        assert(enc_grants(gs.take(1)) =~= enc_grants(gs.take(0)) + enc_str(gs[0].0) + enc_perm(
            gs[0].1,
        ));
    } else {
        let tail = gs.skip(1);
        lemma_enc_grants_snoc(tail, i - 1);
        assert(gs.take(i + 1)[0] == gs[0]);
        assert(gs.take(i)[0] == gs[0]);
        assert(gs.take(i + 1).skip(1) =~= tail.take(i));
        assert(gs.take(i).skip(1) =~= tail.take(i - 1));
        assert(tail[i - 1] == gs[i]);
        assert(enc_grants(gs.take(i + 1)) =~= enc_str(gs[0].0) + enc_perm(gs[0].1) + (enc_grants(
            tail.take(i - 1),
        ) + enc_str(gs[i].0) + enc_perm(gs[i].1)));
        assert(enc_grants(gs.take(i + 1)) =~= enc_grants(gs.take(i)) + enc_str(gs[i].0)
            + enc_perm(gs[i].1));
    }
}

// ---------------------------------------------------------------------------
// Writing a token out
// ---------------------------------------------------------------------------

/// Append the one-character level mark.
fn push_perm(out: &mut String, p: Permission)
    ensures
        final(out)@ == old(out)@ + enc_perm(p),
{
    match p {
        Permission::Read => push_char(out, 'r'),
        Permission::ReadWrite => push_char(out, 'w'),
    }
    proof {
        assert(out@ =~= old(out)@ + enc_perm(p));
    }
}

impl Token {
    /// The unsigned payload text of this token.
    pub fn payload(&self) -> (r: String)
        ensures
            r@ == payload_of(self.model()),
    {
        let mut out = String::new();
        push_field(&mut out, self.sub.as_str());
        push_num(&mut out, self.exp);
        let n = self.permissions.len();
        push_num(&mut out, n as u64);
        let ghost head = enc_str(self.sub@) + enc_num(self.exp as nat) + enc_num(
            self.permissions@.len(),
        );
        proof {
            assert(out@ =~= head + enc_grants(self.permissions@.take(0)));
        }
        let mut i: usize = 0;
        while i < n
            invariant
                n == self.permissions@.len(),
                0 <= i <= n,
                head == enc_str(self.sub@) + enc_num(self.exp as nat) + enc_num(
                    self.permissions@.len(),
                ),
                out@ == head + enc_grants(self.permissions@.take(i as int)),
            decreases n - i,
        {
            let entry = self.permissions.entry_at(i);
            push_field(&mut out, entry.0.as_str());
            push_perm(&mut out, entry.1);
            proof {
                lemma_enc_grants_snoc(self.permissions@, i as int);
                assert(out@ =~= head + enc_grants(self.permissions@.take(i + 1)));
            }
            i = i + 1;
        }
        proof {
            assert(self.permissions@.take(n as int) =~= self.permissions@);
        }
        push_field(&mut out, self.active_club.as_str());
        push_perm(&mut out, self.active_permission);
        proof {
            assert(out@ =~= payload_of(self.model()));
        }
        out
    }

    /// The signed cookie text: the payload as a length-prefixed field, then
    /// its HMAC-SHA256 tag under `key`.
    pub fn cookie_value(&self, key: &str) -> (r: String)
        ensures
            r@ == spec_cookie_value(self.model(), key@),
    {
        let payload = self.payload();
        let tag = hs256_sign(payload.as_str(), key);
        let mut out = String::new();
        push_field(&mut out, payload.as_str());
        out.append(tag.as_str());
        proof {
            assert(out@ =~= spec_cookie_value(self.model(), key@));
        }
        out
    }
}

// ---------------------------------------------------------------------------
// Reading a token back
// ---------------------------------------------------------------------------

/// Read a level mark at position `pos`.
fn parse_perm_at(s: &str, pos: usize) -> (r: Option<(Permission, usize)>)
    requires
        pos <= s@.len(),
    ensures
        match r {
            Some(v) => pos < v.1 <= s@.len() && parse_perm(s@.skip(pos as int)) == Some(
                (v.0, s@.skip(v.1 as int)),
            ),
            None => parse_perm(s@.skip(pos as int)) is None,
        },
{
    let n = s.unicode_len();
    if pos >= n {
        proof {
            assert(s@.skip(pos as int).len() == 0);
        }
        return None;
    }
    let c = s.get_char(pos);
    proof {
        assert(s@.skip(pos as int)[0] == s@[pos as int]);
        assert(s@.skip(pos as int).skip(1) =~= s@.skip(pos as int + 1));
    }
    if c == 'r' {
        Some((Permission::Read, pos + 1))
    } else if c == 'w' {
        Some((Permission::ReadWrite, pos + 1))
    } else {
        None
    }
}

/// Read `n` grants at position `pos`.
fn parse_grants_at(s: &str, pos: usize, n: u64) -> (r: Option<(Vec<(String, Permission)>, usize)>)
    requires
        pos <= s@.len(),
    ensures
        match r {
            Some(v) => pos <= v.1 <= s@.len() && parse_grants(s@.skip(pos as int), n as nat)
                == Some((entries_view(v.0@), s@.skip(v.1 as int))),
            None => parse_grants(s@.skip(pos as int), n as nat) is None,
        },
{
    let ghost orig = s@.skip(pos as int);
    let mut out: Vec<(String, Permission)> = Vec::new();
    let mut cur: usize = pos;
    let mut i: u64 = 0;
    proof {
        assert(entries_view(out@) =~= Seq::<(Seq<char>, Permission)>::empty());
    }
    while i < n
        invariant
            0 <= i <= n,
            pos <= cur <= s@.len(),
            orig == s@.skip(pos as int),
            (match parse_grants(s@.skip(cur as int), (n - i) as nat) {
                None => parse_grants(orig, n as nat) is None,
                Some(gr) => parse_grants(orig, n as nat) == Some(
                    (entries_view(out@) + gr.0, gr.1),
                ),
            }),
        decreases n - i,
    {
        let ghost rem = s@.skip(cur as int);
        let (name, p1) = match parse_str_at(s, cur) {
            None => {
                return None;
            },
            Some(v) => v,
        };
        let (perm, p2) = match parse_perm_at(s, p1) {
            None => {
                return None;
            },
            Some(v) => v,
        };
        proof {
            let e = (name@, perm);
            assert(parse_str(rem) == Some((name@, s@.skip(p1 as int))));
            assert(parse_perm(s@.skip(p1 as int)) == Some((perm, s@.skip(p2 as int))));
            assert(entries_view(out@.push((name, perm))) =~= entries_view(out@) + seq![e]);
            match parse_grants(s@.skip(p2 as int), (n - i - 1) as nat) {
                None => {},
                Some(gr) => {
                    assert(parse_grants(rem, (n - i) as nat) == Some((seq![e] + gr.0, gr.1)));
                    assert((entries_view(out@) + (seq![e] + gr.0)) =~= (entries_view(out@)
                        + seq![e]) + gr.0);
                },
            }
        }
        out.push((name, perm));
        cur = p2;
        i = i + 1;
    }
    proof {
        assert(parse_grants(s@.skip(cur as int), 0) == Some(
            (Seq::<(Seq<char>, Permission)>::empty(), s@.skip(cur as int)),
        ));
        assert(entries_view(out@) + Seq::<(Seq<char>, Permission)>::empty() =~= entries_view(
            out@,
        ));
    }
    Some((out, cur))
}

/// Read a whole payload back into a token; `None` on any malformation.
pub fn parse_token_str(payload: &str) -> (r: Option<Token>)
    ensures
        match r {
            Some(t) => t.wf() && parse_token(payload@) == Some(t.model()),
            None => parse_token(payload@) is None,
        },
{
    proof {
        assert(payload@.skip(0) =~= payload@);
    }
    let (sub, p1) = match parse_str_at(payload, 0) {
        None => {
            return None;
        },
        Some(v) => v,
    };
    let (exp, p2) = match parse_num_at(payload, p1) {
        None => {
            return None;
        },
        Some(v) => v,
    };
    let (count, p3) = match parse_num_at(payload, p2) {
        None => {
            return None;
        },
        Some(v) => v,
    };
    let (entries, p4) = match parse_grants_at(payload, p3, count) {
        None => {
            return None;
        },
        Some(v) => v,
    };
    let (club, p5) = match parse_str_at(payload, p4) {
        None => {
            return None;
        },
        Some(v) => v,
    };
    let (perm, p6) = match parse_perm_at(payload, p5) {
        None => {
            return None;
        },
        Some(v) => v,
    };
    if p6 != payload.unicode_len() {
        return None;
    }
    let permissions = PermissionMap::from_entries(entries);
    proof {
        assert(permissions@ =~= entries_view(entries@));
    }
    let active = match permissions.get(&club) {
        None => {
            return None;
        },
        Some(q) => q,
    };
    if active != perm {
        return None;
    }
    Some(Token { sub, exp, permissions, active_club: club, active_permission: perm })
}

// ---------------------------------------------------------------------------
// Construction, club switch, signing, verification
// ---------------------------------------------------------------------------

/// Expiry a token minted or refreshed at `now` gets: a fixed two-hour
/// window ahead, clamped at the top of the clock's range.
pub open spec fn token_expiry(now: u64) -> u64 {
    if now <= u64::MAX - 7200 {
        (now + 7200) as u64
    } else {
        u64::MAX
    }
}

/// Compute the expiry for a session touched at `now`.
pub fn expiry_from(now: u64) -> (r: u64)
    ensures
        r == token_expiry(now),
{
    if now <= u64::MAX - 7200 {
        now + 7200
    } else {
        u64::MAX
    }
}

/// Session cookie the server sets: integrity-protected value plus the
/// attributes the browser must honour.
pub struct SessionCookie {
    pub name: String,
    pub value: String,
    pub http_only: bool,
    pub secure: bool,
    pub same_site_lax: bool,
    pub path: String,
}

impl Token {
    /// Mint a token at time `now`: the first grant in ingestion order
    /// becomes the active club. A subject with no grants gets no session.
    pub fn new_at(sub: String, permissions: PermissionMap, now: u64) -> (r: Option<Token>)
        ensures
            r is Some <==> permissions@.len() > 0,
            r matches Some(t) ==> {
                &&& t.sub == sub
                &&& t.exp == token_expiry(now)
                &&& t.permissions == permissions
                &&& t.active_club@ == permissions@[0].0
                &&& t.active_permission == permissions@[0].1
                &&& t.wf()
            },
    {
        if permissions.len() == 0 {
            return None;
        }
        let first = permissions.entry_at(0);
        let t = Token {
            sub,
            exp: expiry_from(now),
            permissions,
            active_club: first.0,
            active_permission: first.1,
        };
        proof {
            assert(grants_lookup(t.permissions@, t.active_club@) == Some(t.active_permission));
        }
        Some(t)
    }

    /// Mint a token now. The expiry is two hours from the clock reading.
    pub fn new(sub: String, permissions: PermissionMap) -> (r: Option<Token>)
        ensures
            r is Some <==> permissions@.len() > 0,
            r matches Some(t) ==> {
                &&& t.sub == sub
                &&& t.permissions == permissions
                &&& t.active_club@ == permissions@[0].0
                &&& t.active_permission == permissions@[0].1
                &&& t.wf()
            },
    {
        let now = now_timestamp();
        Token::new_at(sub, permissions, now)
    }

    /// Switch the active club: both the club and its cached permission move
    /// together, and only to a club this token holds a grant for.
    pub fn set_active_club(&mut self, club: String) -> (r: Result<(), Error>)
        ensures
            match r {
                Ok(()) => {
                    &&& grants_lookup(old(self).permissions@, club@) is Some
                    &&& final(self).active_club@ == club@
                    &&& final(self).active_permission == grants_lookup(
                        old(self).permissions@,
                        club@,
                    ).unwrap()
                    &&& final(self).sub == old(self).sub
                    &&& final(self).exp == old(self).exp
                    &&& final(self).permissions == old(self).permissions
                    &&& final(self).wf()
                },
                Err(e) => {
                    &&& e is Unauthorized
                    &&& grants_lookup(old(self).permissions@, club@) is None
                    &&& *final(self) == *old(self)
                },
            },
    {
        match self.permissions.get(&club) {
            Some(p) => {
                self.active_club = club;
                self.active_permission = p;
                Ok(())
            },
            None => Err(Error::Unauthorized),
        }
    }

    /// The signed session cookie carrying this token, with the attributes
    /// the design fixes: http-only, secure, SameSite=Lax, path `/`.
    pub fn cookie(&self, key: &str) -> (c: SessionCookie)
        ensures
            c.value@ == spec_cookie_value(self.model(), key@),
            c.name@ == "token"@,
            c.http_only,
            c.secure,
            c.same_site_lax,
            c.path@ == "/"@,
    {
        SessionCookie {
            name: String::from_str("token"),
            value: self.cookie_value(key),
            http_only: true,
            secure: true,
            same_site_lax: true,
            path: String::from_str("/"),
        }
    }

    /// Sliding expiration: push the expiry a full window ahead of `now` and
    /// re-sign, leaving everything else of the session as it was.
    pub fn refresh_at(&mut self, key: &str, now: u64) -> (c: SessionCookie)
        ensures
            final(self).exp == token_expiry(now),
            final(self).sub == old(self).sub,
            final(self).permissions == old(self).permissions,
            final(self).active_club == old(self).active_club,
            final(self).active_permission == old(self).active_permission,
            old(self).wf() ==> final(self).wf(),
            c.value@ == spec_cookie_value(final(self).model(), key@),
            c.name@ == "token"@,
            c.http_only && c.secure && c.same_site_lax,
            c.path@ == "/"@,
    {
        self.exp = expiry_from(now);
        self.cookie(key)
    }

    /// Check a cookie value at time `now`: signature first, then shape,
    /// then expiry; any failure is the same `None`.
    pub fn verify_at(value: &str, key: &str, now: u64) -> (r: Option<Token>)
        ensures
            match r {
                Some(t) => t.wf() && spec_verify(value@, key@, now) == Some(t.model()),
                None => spec_verify(value@, key@, now) is None,
            },
    {
        proof {
            assert(value@.skip(0) =~= value@);
        }
        let (payload, np) = match parse_str_at(value, 0) {
            None => {
                return None;
            },
            Some(v) => v,
        };
        let n = value.unicode_len();
        let tag = value.substring_char(np, n).to_owned();
        proof {
            assert(tag@ =~= value@.skip(np as int));
        }
        let computed = hs256_sign(payload.as_str(), key);
        if !(computed == tag) {
            return None;
        }
        let t = match parse_token_str(payload.as_str()) {
            None => {
                return None;
            },
            Some(t) => t,
        };
        if now < t.exp {
            Some(t)
        } else {
            None
        }
    }

    /// Check the cookie from a request, if one came, against the clock.
    /// Whatever the clock read, anything returned is a well-formed token
    /// that verified at that reading.
    pub fn extract_token(cookie: Option<&String>, key: &str) -> (r: Option<Token>)
        ensures
            cookie is None ==> r is None,
            r matches Some(t) ==> t.wf() && (cookie matches Some(c) && exists|now: u64|
                spec_verify(c@, key@, now) == Some(t.model())),
    {
        match cookie {
            None => None,
            Some(c) => {
                let now = now_timestamp();
                let r = Token::verify_at(c.as_str(), key, now);
                proof {
                    if r is Some {
                        assert(spec_verify(c@, key@, now) == Some(r.unwrap().model()));
                    }
                }
                r
            },
        }
    }
}

// ---------------------------------------------------------------------------
// Laws: signing then verifying is the identity, and expiry always rejects
// ---------------------------------------------------------------------------

/// Verifying what signing produced under the same key yields the very same
/// token, at any time before its expiry.
pub proof fn lemma_token_round_trip(m: TokenModel, key: Seq<char>, now: u64)
    requires
        token_model_wf(m),
        token_model_sized(m),
        now < m.exp,
    ensures
        spec_verify(spec_cookie_value(m, key), key, now) == Some(m),
{
    lemma_parse_str_round(payload_of(m), hs256_tag(payload_of(m), key));
    lemma_parse_token_round(m);
}

/// Nothing expired is ever accepted: whatever the cookie text and key, a
/// token that verification returns has its expiry ahead of `now`.
pub proof fn lemma_verify_unexpired(c: Seq<char>, key: Seq<char>, now: u64)
    ensures
        spec_verify(c, key, now) matches Some(m) ==> now < m.exp,
{
}

/// A token whose expiry has passed is rejected regardless of the signature:
/// even a tag minted with the verifier's own key does not help.
pub proof fn lemma_expired_token_rejected(
    m: TokenModel,
    sig_key: Seq<char>,
    key: Seq<char>,
    now: u64,
)
    requires
        token_model_wf(m),
        token_model_sized(m),
        now >= m.exp,
    ensures
        spec_verify(enc_str(payload_of(m)) + hs256_tag(payload_of(m), sig_key), key, now)
            is None,
{
    lemma_parse_str_round(payload_of(m), hs256_tag(payload_of(m), sig_key));
    if hs256_tag(payload_of(m), sig_key) == hs256_tag(payload_of(m), key) {
        lemma_parse_token_round(m);
    }
}

} // verus!
