use zaiko_auth::login::{
    begin_login, check_csrf_token, check_token_hash, mint_session, verify_exchange,
    ExchangeOutcome, LoginAttempt, OidcConfig,
};
use zaiko_auth::perm::Permission;
use zaiko_auth::resolver::resolve_pls_entries;
use zaiko_auth::token::Token;

fn config() -> OidcConfig {
    OidcConfig {
        auth_endpoint: String::from("https://idp.example/authorize"),
        client_id: String::from("zaiko client"),
        redirect_uri: String::from("https://app.example/api/oidc/callback"),
    }
}

#[test]
fn begin_login_url_carries_state_and_nonce() {
    let (attempt, url) = begin_login(&config());
    assert!(url.starts_with("https://idp.example/authorize?response_type=code&scope=openid"));
    assert!(url.contains(&format!("&state={}", attempt.csrf_state)));
    assert!(url.contains(&format!("&nonce={}", attempt.nonce)));
    assert!(url.contains("&client_id=zaiko%20client"));
    assert!(url.contains("&redirect_uri=https%3A%2F%2Fapp.example%2Fapi%2Foidc%2Fcallback"));
}

#[test]
fn fresh_challenges_differ() {
    let (a, _) = begin_login(&config());
    let (b, _) = begin_login(&config());
    assert!(!a.csrf_state.is_empty());
    assert!(!a.nonce.is_empty());
    assert_ne!(a.csrf_state, b.csrf_state);
    assert_ne!(a.nonce, b.nonce);
}

#[test]
fn csrf_match_yields_nonce_witness() {
    let attempt = LoginAttempt {
        csrf_state: String::from("S1"),
        nonce: String::from("N1"),
    };
    let checked = check_csrf_token(&attempt, &String::from("S1")).unwrap();
    assert_eq!(checked.nonce().as_str(), "N1");
}

#[test]
fn csrf_mismatch_is_bad_request() {
    let attempt = LoginAttempt {
        csrf_state: String::from("S1"),
        nonce: String::from("N1"),
    };
    match check_csrf_token(&attempt, &String::from("S2")) {
        Err(e) => assert_eq!(e.status_code(), 400),
        Ok(_) => panic!("a wrong state must be rejected"),
    }
}

#[test]
fn token_hash_binding() {
    let subject = String::from("alice");
    // claim absent: binding is skipped
    assert!(check_token_hash(None, None, &subject).is_ok());
    assert!(check_token_hash(None, Some(&String::from("h")), &subject).is_ok());
    // claim present and equal: bound
    assert!(check_token_hash(Some(&String::from("h1")), Some(&String::from("h1")), &subject)
        .is_ok());
    // claim present, recomputed hash differs: rejected
    match check_token_hash(Some(&String::from("h1")), Some(&String::from("h2")), &subject) {
        Err(e) => assert_eq!(e.status_code(), 500),
        Ok(()) => panic!("a hash mismatch must be rejected"),
    }
    // claim present but nothing recomputed: rejected
    assert!(check_token_hash(Some(&String::from("h1")), None, &subject).is_err());
}

#[test]
fn exchange_outcomes() {
    let attempt = LoginAttempt {
        csrf_state: String::from("S1"),
        nonce: String::from("N1"),
    };
    let checked = check_csrf_token(&attempt, &String::from("S1")).unwrap();
    let sub = verify_exchange(
        &checked,
        ExchangeOutcome::Verified {
            subject: String::from("alice"),
            claimed_hash: Some(String::from("h")),
            computed_hash: Some(String::from("h")),
        },
    )
    .unwrap();
    assert_eq!(sub, "alice");

    for bad in [
        ExchangeOutcome::ExchangeFailed { detail: String::from("timeout") },
        ExchangeOutcome::NoIdToken,
        ExchangeOutcome::ClaimsRejected { detail: String::from("bad nonce") },
        ExchangeOutcome::Verified {
            subject: String::from("alice"),
            claimed_hash: Some(String::from("h")),
            computed_hash: Some(String::from("other")),
        },
    ] {
        match verify_exchange(&checked, bad) {
            Err(e) => assert_eq!(e.status_code(), 500),
            Ok(_) => panic!("a failed exchange must not yield a subject"),
        }
    }
}

#[test]
fn fresh_login_scenario() {
    // the whole happy path: challenge, matching callback, empty grant list
    let (attempt, url) = begin_login(&config());
    assert!(url.contains(&format!("&state={}", attempt.csrf_state)));

    let echoed = attempt.csrf_state.clone();
    let checked = check_csrf_token(&attempt, &echoed).unwrap();
    let subject = verify_exchange(
        &checked,
        ExchangeOutcome::Verified {
            subject: String::from("alice"),
            claimed_hash: None,
            computed_hash: None,
        },
    )
    .unwrap();
    let entries: Vec<String> = Vec::new();
    let permissions = resolve_pls_entries(&entries).unwrap();
    let (token, cookie) = mint_session(subject, permissions, "server-secret", 1000);

    assert_eq!(cookie.name, "token");
    assert!(cookie.http_only && cookie.secure && cookie.same_site_lax);
    assert_eq!(cookie.path, "/");

    let back = Token::verify_at(cookie.value.as_str(), "server-secret", 1001).unwrap();
    assert_eq!(back.sub, "alice");
    assert_eq!(back.active_club, "metadorerna");
    assert!(matches!(back.active_permission, Permission::Read));
    assert_eq!(token.exp, 8200);
}

#[test]
fn stale_state_scenario() {
    // a callback carrying another attempt's state dies before any exchange
    let (attempt, _) = begin_login(&config());
    let wrong = format!("{}x", attempt.csrf_state);
    match check_csrf_token(&attempt, &wrong) {
        Err(e) => assert_eq!(e.status_code(), 400),
        Ok(_) => panic!("a stale state must be rejected"),
    }
}
