use zaiko_auth::clubs::{get_clubs, set_club, Club};
use zaiko_auth::error::{Error, PermissionDifference};
use zaiko_auth::middleware::{
    check_permission, contains_str, fake_session, AuthDecision, AuthMiddleware,
};
use zaiko_auth::perm::{Permission, PermissionMap};
use zaiko_auth::token::Token;

fn reader_token() -> Token {
    let mut map = PermissionMap::new();
    map.insert(String::from("metadorerna"), Permission::Read);
    Token::new_at(String::from("alice"), map, 1000).unwrap()
}

fn writer_token() -> Token {
    let mut map = PermissionMap::new();
    map.insert(String::from("metadorerna"), Permission::ReadWrite);
    Token::new_at(String::from("bob"), map, 1000).unwrap()
}

#[test]
fn middleware_new_keeps_configuration() {
    let mw = AuthMiddleware::new(String::from("https://idp/auth"), Permission::ReadWrite);
    assert_eq!(mw.auth_url, "https://idp/auth");
    assert!(matches!(mw.permission, Permission::ReadWrite));
    let inner = mw.new_inner();
    assert_eq!(inner.auth_url, "https://idp/auth");
    assert!(matches!(inner.permission, Permission::ReadWrite));
}

#[test]
fn check_permission_polarity() {
    // true means: deny
    assert!(!check_permission(Permission::Read, reader_token()));
    assert!(!check_permission(Permission::Read, writer_token()));
    assert!(check_permission(Permission::ReadWrite, reader_token()));
    assert!(!check_permission(Permission::ReadWrite, writer_token()));
}

#[test]
fn sufficient_token_granted_with_refresh() {
    let inner = AuthMiddleware::new(String::from("https://idp/auth"), Permission::Read)
        .new_inner();
    match inner.decide("/api/items", Some(reader_token()), false) {
        AuthDecision::Grant { active_club, refresh } => {
            assert_eq!(active_club, "metadorerna");
            assert!(refresh);
        },
        _ => panic!("a sufficient token must be granted"),
    }
}

#[test]
fn club_switch_request_not_refreshed() {
    let inner = AuthMiddleware::new(String::from("https://idp/auth"), Permission::Read)
        .new_inner();
    match inner.decide("/api/club", Some(reader_token()), false) {
        AuthDecision::Grant { refresh, .. } => assert!(!refresh),
        _ => panic!("a sufficient token must be granted"),
    }
}

#[test]
fn insufficient_token_denied_without_handler() {
    let inner = AuthMiddleware::new(String::from("https://idp/auth"), Permission::ReadWrite)
        .new_inner();
    // interactive deployments redirect to the login URL
    match inner.decide("/api/admin/item", Some(reader_token()), false) {
        AuthDecision::DenyRedirect { location } => assert_eq!(location, "https://idp/auth"),
        _ => panic!("a read-only token must not pass a read-write guard"),
    }
    // the development flavour answers 401 instead
    match inner.decide("/api/admin/item", Some(reader_token()), true) {
        AuthDecision::DenyUnauthorized => {},
        _ => panic!("development mode denies with a plain 401"),
    }
}

#[test]
fn missing_token_denied() {
    let inner = AuthMiddleware::new(String::from("https://idp/auth"), Permission::Read)
        .new_inner();
    match inner.decide("/api/items", None, false) {
        AuthDecision::DenyRedirect { location } => assert_eq!(location, "https://idp/auth"),
        _ => panic!("no cookie, no access"),
    }
}

#[test]
fn login_and_static_paths_bypass() {
    let inner = AuthMiddleware::new(String::from("https://idp/auth"), Permission::Read)
        .new_inner();
    assert!(matches!(
        inner.decide("/api/oidc/callback", None, false),
        AuthDecision::Bypass
    ));
    assert!(matches!(
        inner.decide("/static/app.css", None, false),
        AuthDecision::Bypass
    ));
}

#[test]
fn fake_mode_without_cookie_gets_fake_session() {
    let inner = AuthMiddleware::new(String::from("https://idp/auth"), Permission::Read)
        .new_inner();
    assert!(matches!(
        inner.decide("/api/items", None, true),
        AuthDecision::FakeLogin
    ));
    let token = fake_session(100);
    assert_eq!(token.sub, "ture");
    assert_eq!(token.active_club, "metadorerna");
    assert!(matches!(token.active_permission, Permission::Read));
    assert_eq!(token.exp, 7300);
}

#[test]
fn contains_str_finds_substrings() {
    assert!(contains_str("/api/oidc/callback", "oidc"));
    assert!(contains_str("abc", ""));
    assert!(!contains_str("/api/items", "oidc"));
    assert!(!contains_str("oid", "oidc"));
    assert!(contains_str("xoidc", "oidc"));
}

#[test]
fn switching_to_ungranted_club_rejected_cookie_unchanged() {
    let mut token = reader_token();
    match set_club(&mut token, String::from("bilfront"), "server-secret") {
        Err(e) => assert_eq!(e.status_code(), 401),
        Ok(_) => panic!("an ungranted club must be refused"),
    }
    assert_eq!(token.active_club, "metadorerna");
}

#[test]
fn switching_to_granted_club_resigns_cookie() {
    let mut map = PermissionMap::new();
    map.insert(String::from("metadorerna"), Permission::Read);
    map.insert(String::from("bilfront"), Permission::ReadWrite);
    let mut token = Token::new_at(String::from("alice"), map, 1000).unwrap();
    let cookie = set_club(&mut token, String::from("bilfront"), "server-secret").unwrap();
    let back = Token::verify_at(cookie.value.as_str(), "server-secret", 1500).unwrap();
    assert_eq!(back.active_club, "bilfront");
    assert!(matches!(back.active_permission, Permission::ReadWrite));
    // the club switch does not extend the session
    assert_eq!(back.exp, 8200);
}

#[test]
fn clubs_listing_mirrors_grants() {
    let mut map = PermissionMap::new();
    map.insert(String::from("metadorerna"), Permission::Read);
    map.insert(String::from("bilfront"), Permission::ReadWrite);
    let token = Token::new_at(String::from("alice"), map, 1000).unwrap();
    let res = get_clubs(&token);
    assert_eq!(res.active.name().as_str(), "metadorerna");
    assert!(matches!(res.active.permission(), Permission::Read));
    assert_eq!(res.clubs.len(), 2);
    assert_eq!(res.clubs[0].name().as_str(), "metadorerna");
    assert_eq!(res.clubs[1].name().as_str(), "bilfront");
    assert!(matches!(res.clubs[1].permission(), Permission::ReadWrite));
}

#[test]
fn club_from_pair() {
    let club = Club::from((String::from("bilfront"), Permission::ReadWrite));
    assert_eq!(club.name().as_str(), "bilfront");
    assert!(matches!(club.permission(), Permission::ReadWrite));
}

#[test]
fn error_status_codes() {
    assert_eq!(Error::InternalServerError(String::from("boom")).status_code(), 500);
    assert_eq!(Error::Unauthorized.status_code(), 401);
    assert_eq!(Error::BadRequest.status_code(), 400);
}

#[test]
fn permission_difference_describes_itself() {
    let diff = PermissionDifference::new(
        String::from("bilfront"),
        Permission::Read,
        String::from("metadorerna"),
        Permission::ReadWrite,
    );
    assert_eq!(
        diff.describe(),
        "tried to access metadorerna ReadWrite resource using bilfront Read privalge"
    );
}
