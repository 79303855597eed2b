use groupd::store::DbUtils;

#[test]
fn test_user_pending_and_group_flows() {
    let mut db = DbUtils::new();
    // Test add/get user
    assert!(db.add_user("alice", "pk1"));
    assert!(!db.add_user("alice", "pk1"));
    let u = db.get_user_by_username("alice");
    assert_eq!(u, Some(("alice".to_string(), "pk1".to_string())));

    // Test pending users
    assert!(db.add_pending_user("bob", "pk2"));
    assert!(!db.add_pending_user("bob", "pk2"));
    let p = db.get_pending_user("bob");
    assert_eq!(p, Some("pk2".to_string()));
    assert!(db.remove_pending_user("bob"));

    // Test group flows
    assert!(db.create_group("g1", "Group1", "alice", true, false));
    assert!(db.is_group_public("g1"));
    assert!(db.add_group_member("g1", "alice"));
    let members = db.get_group_members("g1");
    assert_eq!(members, vec!["alice".to_string()]);
    assert!(db.is_user_admin("g1", "alice"));
    let groups = db.get_groups_for_user("alice");
    assert_eq!(groups, vec!["g1".to_string()]);
}

#[test]
fn test_duplicate_group_and_membership() {
    let mut db = DbUtils::new();
    assert!(db.add_user("alice", "pk1"));
    assert!(db.create_group("g1", "Group1", "alice", false, false));
    assert!(!db.create_group("g1", "Other", "alice", true, true));
    assert!(!db.is_group_public("g1"));
    assert!(!db.is_group_discoverable("g1"));
    assert!(db.add_group_member("g1", "alice"));
    assert!(!db.add_group_member("g1", "alice"));
    assert!(db.is_group_member("g1", "alice"));
    assert!(!db.is_group_member("g1", "bob"));
    assert!(db.group_exists("g1"));
    assert!(!db.group_exists("g2"));
}

#[test]
fn test_invites() {
    let mut db = DbUtils::new();
    assert!(db.add_user("alice", "pk1"));
    assert!(db.add_user("bob", "pk2"));
    assert!(db.create_group("g1", "Group1", "alice", false, false));
    assert!(!db.is_user_invited("g1", "bob"));
    assert!(db.add_group_invite("g1", "bob"));
    assert!(!db.add_group_invite("g1", "bob"));
    assert!(db.is_user_invited("g1", "bob"));
    assert!(db.remove_group_invite("g1", "bob"));
    assert!(!db.remove_group_invite("g1", "bob"));
    assert!(!db.is_user_invited("g1", "bob"));
}

#[test]
fn test_sender_tag_rebinding() {
    let mut db = DbUtils::new();
    assert!(db.add_user("alice", "pk1"));
    assert!(db.add_user("bob", "pk2"));
    assert!(db.get_sender_tag("alice").is_none());
    // Unknown user cannot be bound.
    assert!(!db.set_sender_tag("carol", "t1"));

    assert!(db.set_sender_tag("alice", "t1"));
    assert_eq!(db.get_sender_tag("alice"), Some("t1".to_string()));
    assert_eq!(
        db.get_user_by_tag("t1"),
        Some(("alice".to_string(), "pk1".to_string()))
    );

    // A reconnecting user abandons its old tag.
    assert!(db.set_sender_tag("alice", "t2"));
    assert_eq!(db.get_sender_tag("alice"), Some("t2".to_string()));
    assert!(db.get_user_by_tag("t1").is_none());

    // A tag moves to whoever presented it last.
    assert!(db.set_sender_tag("bob", "t2"));
    assert_eq!(db.get_sender_tag("bob"), Some("t2".to_string()));
    assert!(db.get_sender_tag("alice").is_none());
    assert_eq!(
        db.get_user_by_tag("t2"),
        Some(("bob".to_string(), "pk2".to_string()))
    );
}
