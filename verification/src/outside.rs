use vstd::prelude::*;

verus! {

/// Tag that HMAC-SHA256 signing with `key` gives to `message`, base64url
/// encoded, exactly as jsonwebtoken computes it. A pure function of the
/// message and the key; no contract here says which string it is.
pub uninterp spec fn hs256_tag(message: Seq<char>, key: Seq<char>) -> Seq<char>;

/// What serde_json makes of `text` read as a JSON array of strings:
/// `Some` with the strings when the text is such an array, `None` when it
/// is not. A pure function of the text.
pub uninterp spec fn json_string_list(text: Seq<char>) -> Option<Seq<Seq<char>>>;

/// Relies on jsonwebtoken::crypto::sign: with an HMAC algorithm it always
/// returns `Ok` of the base64url-encoded tag, a deterministic function of
/// message and key alone.
#[verifier::external_body]
pub(crate) fn hs256_sign(message: &str, key: &str) -> (r: String)
    ensures
        r@ == hs256_tag(message@, key@),
{
    jsonwebtoken::crypto::sign(
        message.as_bytes(),
        &jsonwebtoken::EncodingKey::from_secret(key.as_bytes()),
        jsonwebtoken::Algorithm::HS256,
    ).unwrap()
}

/// Relies on serde_json::from_str for `Vec<String>`: whether the text parses,
/// and to which strings, is a function of the text alone.
#[verifier::external_body]
pub(crate) fn parse_json_string_list(text: &str) -> (r: Option<Vec<String>>)
    ensures
        match r {
            Some(v) => json_string_list(text@) == Some(v.deep_view()),
            None => json_string_list(text@) is None,
        },
{
    serde_json::from_str::<Vec<String>>(text).ok()
}

/// Relies on std's String::push: appends exactly the one character.
#[verifier::external_body]
pub(crate) fn push_char(s: &mut String, c: char)
    ensures
        final(s)@ == old(s)@.push(c),
{
    s.push(c);
}

/// Relies on jsonwebtoken::get_current_timestamp: seconds of the system
/// clock since the Unix epoch. Nothing is assumed of the value.
#[verifier::external_body]
pub(crate) fn now_timestamp() -> u64 {
    jsonwebtoken::get_current_timestamp()
}

/// Characters that base64url encoding without padding can produce.
pub open spec fn is_base64url_char(c: char) -> bool {
    ||| 48 <= c as int <= 57
    ||| 65 <= c as int <= 90
    ||| 97 <= c as int <= 122
    ||| c as int == 45
    ||| c as int == 95
}

pub open spec fn is_base64url(s: Seq<char>) -> bool {
    forall|i: int| 0 <= i < s.len() ==> is_base64url_char(#[trigger] s[i])
}

/// Relies on oauth2's CsrfToken::new_random, re-exported by openidconnect:
/// the base64url encoding, without padding, of 16 fresh random bytes — a
/// nonempty string over the base64url alphabet. Nothing is assumed of which
/// string comes back.
#[verifier::external_body]
pub(crate) fn fresh_csrf_state() -> (r: String)
    ensures
        r@.len() > 0,
        is_base64url(r@),
{
    openidconnect::CsrfToken::new_random().into_secret()
}

/// Relies on openidconnect's Nonce::new_random: the base64url encoding,
/// without padding, of 16 fresh random bytes — a nonempty string over the
/// base64url alphabet. Nothing is assumed of which string comes back.
#[verifier::external_body]
pub(crate) fn fresh_nonce() -> (r: String)
    ensures
        r@.len() > 0,
        is_base64url(r@),
{
    openidconnect::Nonce::new_random().secret().clone()
}

} // verus!
