use zaiko_auth::perm::{Permission, PermissionMap};
use zaiko_auth::resolver::{parse_grant, parse_pls_body, resolve_pls_entries};

#[test]
fn default_privlages_seed() {
    let map = Permission::default_privlages();
    assert_eq!(map.len(), 1);
    assert!(matches!(
        map.get(&String::from("metadorerna")),
        Some(Permission::Read)
    ));
}

#[test]
fn resolve_two_grants_overriding_default() {
    let entries = vec![
        String::from("metadorerna-rw"),
        String::from("bilfront-r"),
    ];
    let map = resolve_pls_entries(&entries).expect("well-formed entries must resolve");
    assert_eq!(map.len(), 2);
    assert!(matches!(
        map.get(&String::from("metadorerna")),
        Some(Permission::ReadWrite)
    ));
    assert!(matches!(
        map.get(&String::from("bilfront")),
        Some(Permission::Read)
    ));
}

#[test]
fn resolve_empty_keeps_default_only() {
    let entries: Vec<String> = Vec::new();
    let map = resolve_pls_entries(&entries).unwrap();
    assert_eq!(map.len(), 1);
    assert!(matches!(
        map.get(&String::from("metadorerna")),
        Some(Permission::Read)
    ));
}

#[test]
fn resolve_malformed_entry_fails_whole_resolution() {
    for bad in ["nodash", "club-q", "club-", "a-b-c", "-"] {
        let entries = vec![String::from("bilfront-r"), String::from(bad)];
        match resolve_pls_entries(&entries) {
            Err(e) => assert_eq!(e.status_code(), 500),
            Ok(_) => panic!("entry {:?} must fail resolution", bad),
        }
    }
}

#[test]
fn parse_grant_splits_on_first_dash() {
    let (club, p) = parse_grant(&String::from("bilfront-rw")).unwrap();
    assert_eq!(club, "bilfront");
    assert!(matches!(p, Permission::ReadWrite));
    let (club, p) = parse_grant(&String::from("-r")).unwrap();
    assert_eq!(club, "");
    assert!(matches!(p, Permission::Read));
    assert!(parse_grant(&String::from("a-b-c")).is_none());
    assert!(parse_grant(&String::from("plain")).is_none());
}

#[test]
fn parse_pls_body_json_array() {
    let map = parse_pls_body("[\"metadorerna-rw\",\"bilfront-r\"]").unwrap();
    assert_eq!(map.len(), 2);
    assert!(matches!(
        map.get(&String::from("metadorerna")),
        Some(Permission::ReadWrite)
    ));
}

#[test]
fn parse_pls_body_rejects_non_json() {
    for bad in ["not json", "{\"a\":1}", "[1,2]", ""] {
        match parse_pls_body(bad) {
            Err(e) => assert_eq!(e.status_code(), 500),
            Ok(_) => panic!("body {:?} must be rejected", bad),
        }
    }
}

#[test]
fn insert_updates_in_place_keeping_order() {
    let mut map = PermissionMap::new();
    map.insert(String::from("a"), Permission::Read);
    map.insert(String::from("b"), Permission::Read);
    map.insert(String::from("a"), Permission::ReadWrite);
    assert_eq!(map.len(), 2);
    let first = map.entry_at(0);
    assert_eq!(first.0, "a");
    assert!(matches!(first.1, Permission::ReadWrite));
    let second = map.entry_at(1);
    assert_eq!(second.0, "b");
}
