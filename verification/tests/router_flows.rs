use groupd::router::MessageUtils;
use groupd::wire::{Effect, InboundFrame, ProcessOutcome, ReplyBody, ReplyStatus};

fn frame(action: &str) -> InboundFrame {
    InboundFrame {
        action: action.to_string(),
        username: None,
        public_key: None,
        signature: None,
        group_id: None,
        group_name: None,
        is_public: None,
        is_discoverable: None,
        ciphertext: None,
        last_seen_id: None,
    }
}

fn status_of(out: &ProcessOutcome) -> ReplyStatus {
    match &out.reply {
        Some(rep) => match &rep.body {
            ReplyBody::Status(s) => *s,
            _ => panic!("expected a status reply"),
        },
        None => panic!("expected a reply"),
    }
}

fn group_id_of(out: &ProcessOutcome) -> String {
    match &out.reply {
        Some(rep) => match &rep.body {
            ReplyBody::GroupId(g) => g.clone(),
            _ => panic!("expected a group id reply"),
        },
        None => panic!("expected a reply"),
    }
}

/// A relay with `alice` and `bob` registered, approved and connected
/// under the given tags, without going through the OpenPGP layer.
fn connected_pair() -> MessageUtils {
    let mut m = MessageUtils::new("");
    for (name, key, tag) in [("alice", "key-a", "tag-a"), ("bob", "key-b", "tag-b")] {
        let mut f = frame("register");
        f.username = Some(name.to_string());
        f.public_key = Some(key.to_string());
        f.signature = Some("sig".to_string());
        assert_eq!(status_of(&m.register_decide(&f, true)), ReplyStatus::Pending);
        let mut a = frame("approveGroup");
        a.username = Some(name.to_string());
        a.signature = Some("sig".to_string());
        assert_eq!(status_of(&m.approve_user_decide(&a, true)), ReplyStatus::Success);
        assert!(m.db.set_sender_tag(name, tag));
    }
    m
}

#[test]
fn test_register_idempotent() {
    let mut m = MessageUtils::new("");
    let mut f = frame("register");
    f.username = Some("alice".to_string());
    f.public_key = Some("key-one".to_string());
    f.signature = Some("sig".to_string());
    assert_eq!(status_of(&m.register_decide(&f, true)), ReplyStatus::Pending);

    // The second attempt fails whatever key material it carries.
    let mut f2 = frame("register");
    f2.username = Some("alice".to_string());
    f2.public_key = Some("entirely-different-key".to_string());
    f2.signature = Some("sig2".to_string());
    assert_eq!(
        status_of(&m.register_decide(&f2, true)),
        ReplyStatus::ErrAlreadyRegistered
    );
}

#[test]
fn test_register_field_validation() {
    let mut m = MessageUtils::new("");
    let f = frame("register");
    assert_eq!(
        status_of(&m.register_decide(&f, true)),
        ReplyStatus::ErrMissingUsername
    );
    let mut f = frame("register");
    f.username = Some("alice".to_string());
    assert_eq!(
        status_of(&m.register_decide(&f, true)),
        ReplyStatus::ErrMissingPublicKey
    );
    let mut f = frame("register");
    f.username = Some("alice".to_string());
    f.public_key = Some("key".to_string());
    f.signature = Some("".to_string());
    assert_eq!(
        status_of(&m.register_decide(&f, true)),
        ReplyStatus::ErrMissingSignature
    );
    let mut f = frame("register");
    f.username = Some("alice".to_string());
    f.public_key = Some("key".to_string());
    f.signature = Some("sig".to_string());
    assert_eq!(
        status_of(&m.register_decide(&f, false)),
        ReplyStatus::ErrBadSignature
    );
}

#[test]
fn test_approve_requires_pending() {
    let mut m = MessageUtils::new("");
    let mut a = frame("approveGroup");
    a.username = Some("alice".to_string());
    a.signature = Some("sig".to_string());
    assert_eq!(
        status_of(&m.approve_user_decide(&a, true)),
        ReplyStatus::ErrApproveFailed
    );
    assert_eq!(
        status_of(&m.approve_user_decide(&a, false)),
        ReplyStatus::ErrUnauthorized
    );
}

#[test]
fn test_join_group_private_and_exclusive() {
    let mut m = connected_pair();
    // alice creates a private and a public group.
    let mut c = frame("createGroup");
    c.group_name = Some("hidden".to_string());
    let private_id = group_id_of(&m.create_group_decide("tag-a", &c));
    let mut c = frame("createGroup");
    c.group_name = Some("open".to_string());
    c.is_public = Some(true);
    let public_id = group_id_of(&m.create_group_decide("tag-a", &c));

    // joinGroup on the private group always fails with the private error.
    let mut j = frame("joinGroup");
    j.group_id = Some(private_id.clone());
    assert_eq!(
        status_of(&m.join_group_decide("tag-b", &j)),
        ReplyStatus::ErrGroupPrivate
    );

    // joinGroup on the public group succeeds exactly once.
    let mut j = frame("joinGroup");
    j.group_id = Some(public_id.clone());
    assert_eq!(status_of(&m.join_group_decide("tag-b", &j)), ReplyStatus::Success);
    assert_eq!(
        status_of(&m.join_group_decide("tag-b", &j)),
        ReplyStatus::ErrAlreadyMember
    );

    // An unknown group and an unknown caller are told apart.
    let mut j = frame("joinGroup");
    j.group_id = Some("999".to_string());
    assert_eq!(
        status_of(&m.join_group_decide("tag-b", &j)),
        ReplyStatus::ErrUnknownGroup
    );
    let mut j = frame("joinGroup");
    j.group_id = Some(public_id);
    assert_eq!(
        status_of(&m.join_group_decide("tag-unknown", &j)),
        ReplyStatus::ErrUnknownUser
    );
}

#[test]
fn test_admin_gating() {
    let mut m = connected_pair();
    let mut c = frame("createGroup");
    c.group_name = Some("club".to_string());
    let gid = group_id_of(&m.create_group_decide("tag-a", &c));

    // bob is not the admin: inviteGroup and approveGroup both refuse,
    // whatever the invite or membership state.
    let mut i = frame("inviteGroup");
    i.group_id = Some(gid.clone());
    i.username = Some("alice".to_string());
    assert_eq!(
        status_of(&m.invite_group_decide("tag-b", &i)),
        ReplyStatus::ErrNotAdmin
    );
    let mut a = frame("approveGroup");
    a.group_id = Some(gid.clone());
    a.username = Some("alice".to_string());
    assert_eq!(
        status_of(&m.approve_member_decide("tag-b", &a)),
        ReplyStatus::ErrNotAdmin
    );
}

#[test]
fn test_invite_consumed_on_approval() {
    let mut m = connected_pair();
    let mut c = frame("createGroup");
    c.group_name = Some("club".to_string());
    let gid = group_id_of(&m.create_group_decide("tag-a", &c));

    // Approving before any invitation fails.
    let mut a = frame("approveGroup");
    a.group_id = Some(gid.clone());
    a.username = Some("bob".to_string());
    assert_eq!(
        status_of(&m.approve_member_decide("tag-a", &a)),
        ReplyStatus::ErrNotInvited
    );

    // Invite bob: the connected invitee gets a best-effort notification.
    let mut i = frame("inviteGroup");
    i.group_id = Some(gid.clone());
    i.username = Some("bob".to_string());
    let out = m.invite_group_decide("tag-a", &i);
    assert_eq!(status_of(&out), ReplyStatus::Success);
    assert_eq!(out.effects.len(), 1);
    match &out.effects[0] {
        Effect::Notify { tag, group_id, username } => {
            assert_eq!(tag, "tag-b");
            assert_eq!(group_id, &gid);
            assert_eq!(username, "bob");
        }
        _ => panic!("expected a notify effect"),
    }
    assert_eq!(
        status_of(&m.invite_group_decide("tag-a", &i)),
        ReplyStatus::ErrAlreadyInvited
    );

    // Approval consumes the invitation: a repeat finds none.
    assert_eq!(status_of(&m.approve_member_decide("tag-a", &a)), ReplyStatus::Success);
    assert_eq!(
        status_of(&m.approve_member_decide("tag-a", &a)),
        ReplyStatus::ErrNotInvited
    );
}

#[test]
fn test_fanout_ordering() {
    let mut m = connected_pair();
    let mut c = frame("createGroup");
    c.group_name = Some("club".to_string());
    c.is_public = Some(true);
    let gid = group_id_of(&m.create_group_decide("tag-a", &c));
    let mut j = frame("joinGroup");
    j.group_id = Some(gid.clone());
    assert_eq!(status_of(&m.join_group_decide("tag-b", &j)), ReplyStatus::Success);

    // Three sends: each fans out to both members' current tags.
    for c in ["c1", "c2", "c3"] {
        let mut s = frame("sendGroup");
        s.group_id = Some(gid.clone());
        s.ciphertext = Some(c.to_string());
        let out = m.send_group_decide("tag-a", &s);
        assert_eq!(status_of(&out), ReplyStatus::Success);
        assert_eq!(out.effects.len(), 2);
        for e in &out.effects {
            match e {
                Effect::Deliver { sender, ciphertext, group_id, .. } => {
                    assert_eq!(sender, "alice");
                    assert_eq!(ciphertext, c);
                    assert_eq!(group_id, &gid);
                }
                _ => panic!("expected deliveries"),
            }
        }
    }

    // fetchGroup from the origin returns all three, in send order, with
    // strictly increasing entry identifiers.
    let mut f = frame("fetchGroup");
    f.group_id = Some(gid.clone());
    f.last_seen_id = Some("0-0".to_string());
    f.signature = Some("sig".to_string());
    let out = m.fetch_group_decide("tag-b", &f, true);
    let msgs = match &out.reply {
        Some(rep) => match &rep.body {
            ReplyBody::Messages(v) => v.clone(),
            _ => panic!("expected messages"),
        },
        None => panic!("expected a reply"),
    };
    assert_eq!(msgs.len(), 3);
    assert_eq!(msgs[0].ciphertext, "c1");
    assert_eq!(msgs[1].ciphertext, "c2");
    assert_eq!(msgs[2].ciphertext, "c3");
    assert!(msgs[0].entry_id.lt(msgs[1].entry_id));
    assert!(msgs[1].entry_id.lt(msgs[2].entry_id));

    // A fetch without a lastSeenId defaults to the log's origin and
    // returns the same three messages.
    let mut fd = frame("fetchGroup");
    fd.group_id = Some(gid.clone());
    fd.signature = Some("sig".to_string());
    let outd = m.fetch_group_decide("tag-b", &fd, true);
    match &outd.reply {
        Some(rep) => match &rep.body {
            ReplyBody::Messages(v) => {
                assert_eq!(v.len(), 3);
                assert_eq!(v[0].ciphertext, "c1");
                assert_eq!(v[2].ciphertext, "c3");
            }
            _ => panic!("expected messages"),
        },
        None => panic!("expected a reply"),
    }

    // Fetching from the last identifier returns nothing.
    let mut f2 = frame("fetchGroup");
    f2.group_id = Some(gid.clone());
    f2.last_seen_id = Some(msgs[2].entry_id.to_wire());
    f2.signature = Some("sig".to_string());
    let out2 = m.fetch_group_decide("tag-b", &f2, true);
    match &out2.reply {
        Some(rep) => match &rep.body {
            ReplyBody::Messages(v) => assert!(v.is_empty()),
            _ => panic!("expected messages"),
        },
        None => panic!("expected a reply"),
    }

    // A non-member cannot send or fetch.
    let mut m2 = connected_pair();
    let mut c2 = frame("createGroup");
    c2.group_name = Some("solo".to_string());
    let gid2 = group_id_of(&m2.create_group_decide("tag-a", &c2));
    let mut s = frame("sendGroup");
    s.group_id = Some(gid2.clone());
    s.ciphertext = Some("x".to_string());
    assert_eq!(
        status_of(&m2.send_group_decide("tag-b", &s)),
        ReplyStatus::ErrNotMember
    );
    let mut f3 = frame("fetchGroup");
    f3.group_id = Some(gid2);
    f3.last_seen_id = Some("0-0".to_string());
    f3.signature = Some("sig".to_string());
    assert_eq!(
        status_of(&m2.fetch_group_decide("tag-b", &f3, true)),
        ReplyStatus::ErrNotMember
    );
}

#[test]
fn test_malformed_cursor_is_rejected() {
    let mut m = connected_pair();
    let mut c = frame("createGroup");
    c.group_name = Some("club".to_string());
    let gid = group_id_of(&m.create_group_decide("tag-a", &c));
    let mut f = frame("fetchGroup");
    f.group_id = Some(gid);
    f.last_seen_id = Some("not-a-cursor".to_string());
    f.signature = Some("sig".to_string());
    assert_eq!(
        status_of(&m.fetch_group_decide("tag-a", &f, true)),
        ReplyStatus::ErrMalformedLastSeen
    );
}

#[test]
fn test_unknown_action_is_dropped() {
    let mut m = MessageUtils::new("");
    let f = frame("selfDestruct");
    let out = m.process_received_message("tag-x", &f);
    assert!(out.reply.is_none());
    assert!(out.effects.is_empty());
}

#[test]
fn test_missing_field_errors() {
    let mut m = connected_pair();
    // joinGroup without a group id.
    let j = frame("joinGroup");
    assert_eq!(
        status_of(&m.join_group_decide("tag-a", &j)),
        ReplyStatus::ErrMissingGroupId
    );
    // createGroup without a name.
    let c = frame("createGroup");
    assert_eq!(
        status_of(&m.create_group_decide("tag-a", &c)),
        ReplyStatus::ErrMissingGroupName
    );
    // sendGroup without ciphertext.
    let s = frame("sendGroup");
    assert_eq!(
        status_of(&m.send_group_decide("tag-a", &s)),
        ReplyStatus::ErrMissingCiphertext
    );
    // fetchGroup without a signature.
    let mut f = frame("fetchGroup");
    f.last_seen_id = Some("0-0".to_string());
    assert_eq!(
        status_of(&m.fetch_group_decide("tag-a", &f, true)),
        ReplyStatus::ErrMissingSignature
    );
    // inviteGroup of a username nobody registered.
    let mut c = frame("createGroup");
    c.group_name = Some("club".to_string());
    let gid = group_id_of(&m.create_group_decide("tag-a", &c));
    let mut i = frame("inviteGroup");
    i.group_id = Some(gid);
    i.username = Some("carol".to_string());
    assert_eq!(
        status_of(&m.invite_group_decide("tag-a", &i)),
        ReplyStatus::ErrNotRegistered
    );
    // connect for a username nobody registered.
    let mut cn = frame("connect");
    cn.username = Some("carol".to_string());
    cn.public_key = Some("key".to_string());
    cn.signature = Some("sig".to_string());
    assert_eq!(
        status_of(&m.connect_decide("tag-c", &cn, true)),
        ReplyStatus::ErrNotRegistered
    );
}

#[test]
fn test_exhausted_counters_fail_closed() {
    let mut m = connected_pair();
    // Group-id space exhausted: createGroup refuses, state unchanged.
    m.next_group = u64::MAX;
    let mut c = frame("createGroup");
    c.group_name = Some("club".to_string());
    assert_eq!(
        status_of(&m.create_group_decide("tag-a", &c)),
        ReplyStatus::ErrCreateFailed
    );

    // Entry-id space exhausted: sendGroup refuses, nothing appended.
    let mut m = connected_pair();
    let mut c = frame("createGroup");
    c.group_name = Some("club".to_string());
    let gid = group_id_of(&m.create_group_decide("tag-a", &c));
    m.bus.next_ms = u64::MAX;
    let mut s = frame("sendGroup");
    s.group_id = Some(gid);
    s.ciphertext = Some("x".to_string());
    assert_eq!(
        status_of(&m.send_group_decide("tag-a", &s)),
        ReplyStatus::ErrSendFailed
    );
    assert!(m.bus.entries.is_empty());
}

#[test]
fn test_create_group_generates_fresh_ids() {
    let mut m = connected_pair();
    let mut c = frame("createGroup");
    c.group_name = Some("one".to_string());
    let g1 = group_id_of(&m.create_group_decide("tag-a", &c));
    let mut c = frame("createGroup");
    c.group_name = Some("two".to_string());
    let g2 = group_id_of(&m.create_group_decide("tag-b", &c));
    assert_eq!(g1, "1");
    assert_eq!(g2, "2");
    // The creator is the first member and the admin.
    assert!(m.db.is_group_member("1", "alice"));
    assert!(m.db.is_user_admin("1", "alice"));
    assert!(m.db.is_group_member("2", "bob"));
    assert!(m.db.is_user_admin("2", "bob"));
}
