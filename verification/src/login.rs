use vstd::prelude::*;
use vstd::string::*;
use crate::error::Error;
use crate::middleware::has_substring;
use crate::outside::{fresh_csrf_state, fresh_nonce, is_base64url, is_base64url_char, push_char};
use crate::perm::PermissionMap;
use crate::token::{spec_cookie_value, token_expiry, SessionCookie, Token};

verus! {

// ---------------------------------------------------------------------------
// Building the authorization URL
// ---------------------------------------------------------------------------

/// Bytes that stand for themselves in a URL query component.
pub open spec fn is_unreserved(b: u8) -> bool {
    ||| 48 <= b <= 57
    ||| 65 <= b <= 90
    ||| 97 <= b <= 122
    ||| b == 45
    ||| b == 46
    ||| b == 95
    ||| b == 126
}

/// Uppercase hexadecimal digit for `0 <= d < 16`.
pub open spec fn hex_digit(d: int) -> char {
    if d < 10 {
        ((48 + d) as u8) as char
    } else {
        ((55 + d) as u8) as char
    }
}

/// Percent-encoding of a byte string: unreserved bytes stand as their
/// character, every other byte as `%` and two hex digits.
pub open spec fn pct_of(bs: Seq<u8>) -> Seq<char>
    decreases bs.len(),
{
    if bs.len() == 0 {
        Seq::empty()
    } else {
        pct_head(bs[0]) + pct_of(bs.skip(1))
    }
}

pub open spec fn pct_head(b: u8) -> Seq<char> {
    if is_unreserved(b) {
        seq![b as char]
    } else {
        seq!['%', hex_digit(b as int / 16), hex_digit(b as int % 16)]
    }
}

/// Percent-encoding of a query component: its UTF-8 bytes, encoded.
pub open spec fn pct_component(s: Seq<char>) -> Seq<char> {
    pct_of(vstd::utf8::encode_utf8(s))
}

/// The provider's authorization URL for one login attempt: authorization
/// code flow, openid scope, and the attempt's state and nonce.
pub open spec fn url_of(
    endpoint: Seq<char>,
    client_id: Seq<char>,
    redirect_uri: Seq<char>,
    state: Seq<char>,
    nonce: Seq<char>,
) -> Seq<char> {
    endpoint + "?response_type=code&scope=openid&client_id="@ + pct_component(client_id)
        + "&redirect_uri="@ + pct_component(redirect_uri) + "&state="@ + pct_component(state)
        + "&nonce="@ + pct_component(nonce)
}

/// Encoding one more byte extends the encoded prefix by that byte's text.
proof fn lemma_pct_snoc(bs: Seq<u8>, i: int)
    requires
        0 <= i < bs.len(),
    ensures
        pct_of(bs.take(i + 1)) == pct_of(bs.take(i)) + pct_head(bs[i]),
    decreases i,
{
    if i == 0 {
        assert(bs.take(0) =~= Seq::<u8>::empty());
        assert(bs.take(1)[0] == bs[0]);
        assert(bs.take(1).skip(1) =~= Seq::<u8>::empty());
        assert(pct_of(bs.take(1)) =~= pct_of(bs.take(0)) + pct_head(bs[0]));
    } else {
        let tail = bs.skip(1);
        lemma_pct_snoc(tail, i - 1);
        assert(bs.take(i + 1)[0] == bs[0]);
        assert(bs.take(i)[0] == bs[0]);
        assert(bs.take(i + 1).skip(1) =~= tail.take(i));
        assert(bs.take(i).skip(1) =~= tail.take(i - 1));
        assert(tail[i - 1] == bs[i]);
        assert(pct_of(bs.take(i + 1)) =~= pct_of(bs.take(i)) + pct_head(bs[i]));
    }
}

/// Append the percent-encoding of `component`.
fn push_pct(out: &mut String, component: &str)
    ensures
        final(out)@ == old(out)@ + pct_component(component@),
{
    let bytes = component.as_bytes_vec();
    let n = bytes.len();
    let mut i: usize = 0;
    proof {
        assert(out@ =~= old(out)@ + pct_of(bytes@.take(0)));
    }
    while i < n
        invariant
            n == bytes@.len(),
            bytes@ == vstd::utf8::encode_utf8(component@),
            0 <= i <= n,
            out@ == old(out)@ + pct_of(bytes@.take(i as int)),
        decreases n - i,
    {
        let b = bytes[i];
        if (48 <= b && b <= 57) || (65 <= b && b <= 90) || (97 <= b && b <= 122) || b == 45
            || b == 46 || b == 95 || b == 126 {
            push_char(out, b as char);
        } else {
            push_char(out, '%');
            let hi = b / 16;
            let lo = b % 16;
            push_char(out, if hi < 10 { (48 + hi) as char } else { (55 + hi) as char });
            push_char(out, if lo < 10 { (48 + lo) as char } else { (55 + lo) as char });
        }
        proof {
            lemma_pct_snoc(bytes@, i as int);
            assert(out@ =~= old(out)@ + pct_of(bytes@.take(i + 1)));
        }
        i = i + 1;
    }
    proof {
        assert(bytes@.take(n as int) =~= bytes@);
    }
}

/// Bytes of base64url text pass through percent-encoding untouched.
proof fn lemma_pct_of_identity(bs: Seq<u8>, s: Seq<char>)
    requires
        bs.len() == s.len(),
        forall|i: int| 0 <= i < s.len() ==> bs[i] == #[trigger] (s[i] as u8),
        forall|i: int| 0 <= i < s.len() ==> is_base64url_char(#[trigger] s[i]),
    ensures
        pct_of(bs) == s,
    decreases bs.len(),
{
    if bs.len() == 0 {
        assert(pct_of(bs) =~= s);
    } else {
        assert(is_base64url_char(s[0]));
        assert(bs[0] == (s[0] as u8));
        assert((s[0] as int) < 128);
        assert(bs[0] as int == s[0] as int);
        assert(is_unreserved(bs[0]));
        assert(bs[0] as char == s[0]);
        assert(pct_head(bs[0]) == seq![s[0]]);
        assert forall|i: int| 0 <= i < s.skip(1).len() implies bs.skip(1)[i] == #[trigger] (
        s.skip(1)[i] as u8) by {
            assert(s.skip(1)[i] == s[i + 1]);
            assert(bs.skip(1)[i] == bs[i + 1]);
        }
        assert forall|i: int| 0 <= i < s.skip(1).len() implies is_base64url_char(
            #[trigger] s.skip(1)[i],
        ) by {
            assert(s.skip(1)[i] == s[i + 1]);
        }
        lemma_pct_of_identity(bs.skip(1), s.skip(1));
        assert(pct_of(bs) =~= seq![s[0]] + s.skip(1));
        assert(seq![s[0]] + s.skip(1) =~= s);
    }
}

/// Base64url text travels through percent-encoding unchanged: every one of
/// its characters is an unreserved ASCII character.
pub proof fn lemma_pct_identity(s: Seq<char>)
    requires
        is_base64url(s),
    ensures
        pct_component(s) == s,
{
    assert forall|i: int| 0 <= i < s.len() implies '\0' <= #[trigger] s[i] <= '\u{7f}' by {
        assert(is_base64url_char(s[i]));
    }
    assert(vstd::utf8::is_ascii_chars(s));
    vstd::utf8::is_ascii_chars_encode_utf8(s);
    lemma_pct_of_identity(vstd::utf8::encode_utf8(s), s);
}

/// The authorization URL names the login attempt's state verbatim: the text
/// `&state=` followed by the state itself stands in the URL, so the provider
/// echoes exactly the challenge that was stored.
pub proof fn lemma_url_carries_state(
    endpoint: Seq<char>,
    client_id: Seq<char>,
    redirect_uri: Seq<char>,
    state: Seq<char>,
    nonce: Seq<char>,
)
    requires
        is_base64url(state),
    ensures
        has_substring(
            url_of(endpoint, client_id, redirect_uri, state, nonce),
            "&state="@ + state,
        ),
{
    lemma_pct_identity(state);
    let u = url_of(endpoint, client_id, redirect_uri, state, nonce);
    let prefix = endpoint + "?response_type=code&scope=openid&client_id="@ + pct_component(
        client_id,
    ) + "&redirect_uri="@ + pct_component(redirect_uri);
    let pat = "&state="@ + state;
    let tail = "&nonce="@ + pct_component(nonce);
    assert(u =~= prefix + pat + tail);
    let k = prefix.len() as int;
    assert(u.subrange(k, k + pat.len()) =~= pat);
    assert(0 <= k <= u.len() - pat.len());
}

// ---------------------------------------------------------------------------
// The login challenge
// ---------------------------------------------------------------------------

/// What the library needs to know of the OIDC provider and this client,
/// as plain values: the discovered authorization endpoint, this client's
/// identifier, and where the provider sends the browser back.
pub struct OidcConfig {
    pub auth_endpoint: String,
    pub client_id: String,
    pub redirect_uri: String,
}

/// One in-flight login attempt: the CSRF state echoed back by the provider
/// and the nonce the ID token must carry. Single use.
pub struct LoginAttempt {
    pub csrf_state: String,
    pub nonce: String,
}

/// Start a login: draw a fresh state and nonce and build the authorization
/// URL the browser is sent to. The attempt must be kept until its callback.
pub fn begin_login(config: &OidcConfig) -> (r: (LoginAttempt, String))
    ensures
        r.1@ == url_of(
            config.auth_endpoint@,
            config.client_id@,
            config.redirect_uri@,
            r.0.csrf_state@,
            r.0.nonce@,
        ),
        r.0.csrf_state@.len() > 0 && is_base64url(r.0.csrf_state@),
        r.0.nonce@.len() > 0 && is_base64url(r.0.nonce@),
{
    let state = fresh_csrf_state();
    let nonce = fresh_nonce();
    let mut url = String::new();
    url.append(config.auth_endpoint.as_str());
    url.append("?response_type=code&scope=openid&client_id=");
    push_pct(&mut url, config.client_id.as_str());
    url.append("&redirect_uri=");
    push_pct(&mut url, config.redirect_uri.as_str());
    url.append("&state=");
    push_pct(&mut url, state.as_str());
    url.append("&nonce=");
    push_pct(&mut url, nonce.as_str());
    proof {
        assert(url@ =~= url_of(
            config.auth_endpoint@,
            config.client_id@,
            config.redirect_uri@,
            state@,
            nonce@,
        ));
    }
    (LoginAttempt { csrf_state: state, nonce }, url)
}

// ---------------------------------------------------------------------------
// The callback checks
// ---------------------------------------------------------------------------

/// Witness that the callback's `state` matched the stored CSRF state.
/// Only `check_csrf_token` builds one, so nothing later in the callback can
/// run before that comparison has passed.
pub struct CsrfChecked {
    nonce: String,
}

impl CsrfChecked {
    pub closed spec fn nonce_spec(&self) -> Seq<char> {
        self.nonce@
    }

    /// The nonce of the attempt whose state matched; the ID token's nonce
    /// claim must equal it.
    pub fn nonce(&self) -> (r: &String)
        ensures
            r@ == self.nonce_spec(),
    {
        &self.nonce
    }
}

/// Compare the callback's `state` with the stored CSRF state, byte for
/// byte. A mismatch aborts the login as a bad request before anything else
/// of the callback — in particular before any call to the token endpoint.
pub fn check_csrf_token(attempt: &LoginAttempt, state: &String) -> (r: Result<CsrfChecked, Error>)
    ensures
        match r {
            Ok(w) => state@ == attempt.csrf_state@ && w.nonce_spec() == attempt.nonce@,
            Err(e) => e is BadRequest && state@ != attempt.csrf_state@,
        },
{
    if attempt.csrf_state == *state {
        Ok(CsrfChecked { nonce: attempt.nonce.clone() })
    } else {
        Err(Error::BadRequest)
    }
}

/// Bind the ID token to the access token: if the verified claims carry an
/// access-token hash it must equal the hash recomputed from the access
/// token itself; a missing claim skips the binding. The subject goes into
/// the diagnostic for the audit log.
pub fn check_token_hash(
    claimed: Option<&String>,
    computed: Option<&String>,
    subject: &String,
) -> (r: Result<(), Error>)
    ensures
        match r {
            Ok(()) => match claimed {
                None => true,
                Some(c) => computed matches Some(a) && c@ == a@,
            },
            Err(e) => e is InternalServerError && (claimed matches Some(c) && (computed is None
                || (computed matches Some(a) && c@ != a@))),
        },
{
    match claimed {
        None => Ok(()),
        Some(c) => match computed {
            None => Err(
                Error::InternalServerError(
                    String::from_str("access token hash could not be recomputed for subject ")
                        .concat(subject.as_str()),
                ),
            ),
            Some(a) => {
                if *c == *a {
                    Ok(())
                } else {
                    Err(
                        Error::InternalServerError(
                            String::from_str("access token hashes did not match for subject ")
                                .concat(subject.as_str()),
                        ),
                    )
                }
            },
        },
    }
}

/// How one token-endpoint round trip ended, as plain values: the network or
/// protocol failure, a response with no ID token, an ID token whose
/// signature, issuer, audience or nonce check failed, or verified claims
/// with the subject and the two access-token hashes to bind.
pub enum ExchangeOutcome {
    ExchangeFailed { detail: String },
    NoIdToken,
    ClaimsRejected { detail: String },
    Verified { subject: String, claimed_hash: Option<String>, computed_hash: Option<String> },
}

/// Judge a completed exchange. Only a verified claim set whose access-token
/// binding holds yields a subject; every failure is an internal error and
/// aborts the login with no session minted. Demands the CSRF witness, so an
/// exchange can never be judged before the state matched.
pub fn verify_exchange(checked: &CsrfChecked, outcome: ExchangeOutcome) -> (r: Result<
    String,
    Error,
>)
    ensures
        match r {
            Ok(sub) => outcome matches ExchangeOutcome::Verified {
                subject,
                claimed_hash,
                computed_hash,
            } && sub@ == subject@ && (claimed_hash is None || (claimed_hash matches Some(c)
                && computed_hash matches Some(a) && c@ == a@)),
            Err(e) => e is InternalServerError && (outcome matches ExchangeOutcome::Verified {
                subject,
                claimed_hash,
                computed_hash,
            } ==> (claimed_hash matches Some(c) && (computed_hash is None || (
            computed_hash matches Some(a) && c@ != a@)))),
        },
{
    match outcome {
        ExchangeOutcome::ExchangeFailed { detail } => Err(
            Error::InternalServerError(
                String::from_str("token request error: ").concat(detail.as_str()),
            ),
        ),
        ExchangeOutcome::NoIdToken => Err(
            Error::InternalServerError(String::from_str("oidc server returned no id")),
        ),
        ExchangeOutcome::ClaimsRejected { detail } => Err(
            Error::InternalServerError(
                String::from_str("aquireing claims error: ").concat(detail.as_str()),
            ),
        ),
        ExchangeOutcome::Verified { subject, claimed_hash, computed_hash } => {
            match check_token_hash(claimed_hash.as_ref(), computed_hash.as_ref(), &subject) {
                Ok(()) => Ok(subject),
                Err(e) => Err(e),
            }
        },
    }
}

/// Mint the session for a verified subject: token first, then its signed
/// cookie. Resolution always leaves at least the default grant, so the
/// permission set is never empty here.
pub fn mint_session(subject: String, permissions: PermissionMap, key: &str, now: u64) -> (r: (
    Token,
    SessionCookie,
))
    requires
        permissions@.len() > 0,
    ensures
        r.0.sub@ == subject@,
        r.0.exp == token_expiry(now),
        r.0.permissions == permissions,
        r.0.active_club@ == permissions@[0].0,
        r.0.active_permission == permissions@[0].1,
        r.0.wf(),
        r.1.value@ == spec_cookie_value(r.0.model(), key@),
        r.1.name@ == "token"@,
        r.1.http_only && r.1.secure && r.1.same_site_lax,
        r.1.path@ == "/"@,
{
    let token = Token::new_at(subject, permissions, now).unwrap();
    let cookie = token.cookie(key);
    (token, cookie)
}

} // verus!
