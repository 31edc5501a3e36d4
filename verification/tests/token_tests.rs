use zaiko_auth::perm::{Permission, PermissionMap};
use zaiko_auth::token::Token;

fn sample_map() -> PermissionMap {
    let mut map = PermissionMap::new();
    map.insert(String::from("metadorerna"), Permission::Read);
    map.insert(String::from("bilfront"), Permission::ReadWrite);
    map
}

fn sample_token() -> Token {
    Token::new_at(String::from("alice"), sample_map(), 1000).unwrap()
}

#[test]
fn round_trip_token() {
    let token = sample_token();
    let value = token.cookie_value("server-secret");
    let back = Token::verify_at(value.as_str(), "server-secret", 1500)
        .expect("a fresh cookie must verify");
    assert_eq!(back.sub, "alice");
    assert_eq!(back.exp, 8200);
    assert_eq!(back.active_club, "metadorerna");
    assert!(matches!(back.active_permission, Permission::Read));
    assert!(matches!(
        back.permissions.get(&String::from("bilfront")),
        Some(Permission::ReadWrite)
    ));
    assert!(matches!(
        back.permissions.get(&String::from("metadorerna")),
        Some(Permission::Read)
    ));
    assert_eq!(back.permissions.len(), 2);
}

#[test]
fn expired_token_rejected() {
    let token = sample_token();
    let value = token.cookie_value("server-secret");
    // exp is 1000 + 7200 = 8200; at 8200 and beyond the cookie is dead
    assert!(Token::verify_at(value.as_str(), "server-secret", 8200).is_none());
    assert!(Token::verify_at(value.as_str(), "server-secret", 999_999).is_none());
    // one second earlier it still verifies
    assert!(Token::verify_at(value.as_str(), "server-secret", 8199).is_some());
}

#[test]
fn wrong_key_rejected() {
    let token = sample_token();
    let value = token.cookie_value("server-secret");
    assert!(Token::verify_at(value.as_str(), "other-secret", 1500).is_none());
}

#[test]
fn tampered_value_rejected() {
    let token = sample_token();
    let value = token.cookie_value("server-secret");
    // flip the last character of the tag
    let mut chars: Vec<char> = value.chars().collect();
    let last = *chars.last().unwrap();
    let n = chars.len();
    chars[n - 1] = if last == 'A' { 'B' } else { 'A' };
    let forged: String = chars.into_iter().collect();
    assert!(Token::verify_at(forged.as_str(), "server-secret", 1500).is_none());
    // and damage inside the payload as well
    let mut chars: Vec<char> = value.chars().collect();
    chars[3] = if chars[3] == 'x' { 'y' } else { 'x' };
    let forged: String = chars.into_iter().collect();
    assert!(Token::verify_at(forged.as_str(), "server-secret", 1500).is_none());
}

#[test]
fn garbage_never_verifies() {
    assert!(Token::verify_at("", "k", 0).is_none());
    assert!(Token::verify_at("not a cookie", "k", 0).is_none());
    assert!(Token::verify_at("5:hello", "k", 0).is_none());
}

#[test]
fn set_active_club_switches_both_fields() {
    let mut token = sample_token();
    let r = token.set_active_club(String::from("bilfront"));
    assert!(r.is_ok());
    assert_eq!(token.active_club, "bilfront");
    assert!(matches!(token.active_permission, Permission::ReadWrite));
    // the rest of the token is untouched
    assert_eq!(token.sub, "alice");
    assert_eq!(token.exp, 8200);
    assert_eq!(token.permissions.len(), 2);
}

#[test]
fn set_active_club_unknown_club_unauthorized() {
    let mut token = sample_token();
    let r = token.set_active_club(String::from("nonesuch"));
    match r {
        Err(e) => assert_eq!(e.status_code(), 401),
        Ok(()) => panic!("switching to an ungranted club must fail"),
    }
    // token unchanged
    assert_eq!(token.active_club, "metadorerna");
    assert!(matches!(token.active_permission, Permission::Read));
}

#[test]
fn empty_permissions_no_token() {
    assert!(Token::new_at(String::from("bob"), PermissionMap::new(), 10).is_none());
    assert!(Token::new(String::from("bob"), PermissionMap::new()).is_none());
}

#[test]
fn first_grant_becomes_active() {
    let mut map = PermissionMap::new();
    map.insert(String::from("zzz"), Permission::ReadWrite);
    map.insert(String::from("aaa"), Permission::Read);
    let token = Token::new_at(String::from("carol"), map, 0).unwrap();
    assert_eq!(token.active_club, "zzz");
    assert!(matches!(token.active_permission, Permission::ReadWrite));
}

#[test]
fn expiry_clamps_at_top_of_clock() {
    let token = Token::new_at(String::from("dave"), sample_map(), u64::MAX - 10).unwrap();
    assert_eq!(token.exp, u64::MAX);
}

#[test]
fn club_names_with_separators_round_trip() {
    let mut map = PermissionMap::new();
    map.insert(String::from("metadorerna"), Permission::Read);
    map.insert(String::from("odd:club;7-r w%"), Permission::ReadWrite);
    let mut token = Token::new_at(String::from("eve:3:"), map, 50).unwrap();
    token
        .set_active_club(String::from("odd:club;7-r w%"))
        .unwrap();
    let value = token.cookie_value("k");
    let back = Token::verify_at(value.as_str(), "k", 100).unwrap();
    assert_eq!(back.sub, "eve:3:");
    assert_eq!(back.active_club, "odd:club;7-r w%");
    assert!(matches!(back.active_permission, Permission::ReadWrite));
}
