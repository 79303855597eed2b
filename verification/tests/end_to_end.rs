use std::io::Write;

use groupd::router::MessageUtils;
use groupd::wire::{Effect, InboundFrame, ProcessOutcome, ReplyBody, ReplyStatus};
use sequoia_openpgp::armor::Kind as ArmorKind;
use sequoia_openpgp::cert::CertBuilder;
use sequoia_openpgp::policy::StandardPolicy;
use sequoia_openpgp::serialize::stream::{Armorer, Message, Signer};
use sequoia_openpgp::serialize::SerializeInto;
use sequoia_openpgp::Cert;

fn make_cert(name: &str) -> (String, Cert) {
    let (cert, _revocation) = CertBuilder::new()
        .add_userid(name)
        .add_signing_subkey()
        .generate()
        .unwrap();
    let armored = String::from_utf8(cert.armored().to_vec().unwrap()).unwrap();
    (armored, cert)
}

fn sign_detached(cert: &Cert, payload: &str) -> String {
    let policy = StandardPolicy::new();
    let keypair = cert
        .keys()
        .unencrypted_secret()
        .with_policy(&policy, None)
        .supported()
        .alive()
        .for_signing()
        .next()
        .unwrap()
        .key()
        .clone()
        .into_keypair()
        .unwrap();
    let mut buf = Vec::new();
    {
        let message = Message::new(&mut buf);
        let message = Armorer::new(message).kind(ArmorKind::Signature).build().unwrap();
        let mut signer = Signer::new(message, keypair).unwrap().detached().build().unwrap();
        signer.write_all(payload.as_bytes()).unwrap();
        signer.finalize().unwrap();
    }
    String::from_utf8(buf).unwrap()
}

fn frame(action: &str) -> InboundFrame {
    InboundFrame {
        action: action.to_string(),
        username: None,
        public_key: None,
        signature: None,
        group_id: None,
        group_name: None,
        is_public: None,
        is_discoverable: None,
        ciphertext: None,
        last_seen_id: None,
    }
}

fn status_of(out: &ProcessOutcome) -> ReplyStatus {
    match &out.reply {
        Some(rep) => match &rep.body {
            ReplyBody::Status(s) => *s,
            _ => panic!("expected a status reply"),
        },
        None => panic!("expected a reply"),
    }
}

fn group_id_of(out: &ProcessOutcome) -> String {
    match &out.reply {
        Some(rep) => match &rep.body {
            ReplyBody::GroupId(g) => g.clone(),
            _ => panic!("expected a group id reply"),
        },
        None => panic!("expected a reply"),
    }
}

/// Register, approve and connect one user through the full pipeline.
fn enroll(m: &mut MessageUtils, admin: &Cert, name: &str, cert_armored: &str, cert: &Cert, tag: &str) {
    let mut r = frame("register");
    r.username = Some(name.to_string());
    r.public_key = Some(cert_armored.to_string());
    r.signature = Some(sign_detached(cert, cert_armored));
    assert_eq!(status_of(&m.process_received_message(tag, &r)), ReplyStatus::Pending);

    let mut a = frame("approveGroup");
    a.username = Some(name.to_string());
    a.signature = Some(sign_detached(admin, name));
    assert_eq!(status_of(&m.process_received_message(tag, &a)), ReplyStatus::Success);

    let mut c = frame("connect");
    c.username = Some(name.to_string());
    c.public_key = Some(cert_armored.to_string());
    c.signature = Some(sign_detached(cert, name));
    assert_eq!(status_of(&m.process_received_message(tag, &c)), ReplyStatus::Success);
}

#[test]
fn test_end_to_end_private_group_scenario() {
    let (admin_armored, admin) = make_cert("relay-admin");
    let (alice_armored, alice) = make_cert("alice");
    let (bob_armored, bob) = make_cert("bob");
    let mut m = MessageUtils::new(&admin_armored);

    enroll(&mut m, &admin, "alice", &alice_armored, &alice, "tag-alice");
    enroll(&mut m, &admin, "bob", &bob_armored, &bob, "tag-bob");

    // alice creates a private group.
    let mut c = frame("createGroup");
    c.group_name = Some("club".to_string());
    let gid = group_id_of(&m.process_received_message("tag-alice", &c));

    // bob cannot join it on his own.
    let mut j = frame("joinGroup");
    j.group_id = Some(gid.clone());
    assert_eq!(
        status_of(&m.process_received_message("tag-bob", &j)),
        ReplyStatus::ErrGroupPrivate
    );

    // alice invites bob; bob's live tag gets the notification.
    let mut i = frame("inviteGroup");
    i.group_id = Some(gid.clone());
    i.username = Some("bob".to_string());
    let out = m.process_received_message("tag-alice", &i);
    assert_eq!(status_of(&out), ReplyStatus::Success);
    assert!(matches!(
        &out.effects[..],
        [Effect::Notify { .. }]
    ));

    // alice approves bob into the group.
    let mut ap = frame("approveGroup");
    ap.group_id = Some(gid.clone());
    ap.username = Some("bob".to_string());
    assert_eq!(
        status_of(&m.process_received_message("tag-alice", &ap)),
        ReplyStatus::Success
    );

    // alice sends: bob's current tag is among the deliveries.
    let mut s = frame("sendGroup");
    s.group_id = Some(gid.clone());
    s.ciphertext = Some("opaque-ciphertext".to_string());
    let out = m.process_received_message("tag-alice", &s);
    assert_eq!(status_of(&out), ReplyStatus::Success);
    let mut delivered_to: Vec<String> = Vec::new();
    for e in &out.effects {
        match e {
            Effect::Deliver { tag, ciphertext, sender, .. } => {
                assert_eq!(ciphertext, "opaque-ciphertext");
                assert_eq!(sender, "alice");
                delivered_to.push(tag.clone());
            }
            _ => panic!("expected deliveries"),
        }
    }
    assert!(delivered_to.contains(&"tag-alice".to_string()));
    assert!(delivered_to.contains(&"tag-bob".to_string()));

    // bob catches up from the origin with a signed cursor.
    let mut f = frame("fetchGroup");
    f.group_id = Some(gid.clone());
    f.last_seen_id = Some("0-0".to_string());
    f.signature = Some(sign_detached(&bob, "0-0"));
    let out = m.process_received_message("tag-bob", &f);
    match &out.reply {
        Some(rep) => match &rep.body {
            ReplyBody::Messages(v) => {
                assert_eq!(v.len(), 1);
                assert_eq!(v[0].ciphertext, "opaque-ciphertext");
                assert_eq!(v[0].sender, "alice");
            }
            _ => panic!("expected messages"),
        },
        None => panic!("expected a reply"),
    }
}

#[test]
fn test_connect_fingerprint_binding() {
    let (admin_armored, admin) = make_cert("relay-admin");
    let (alice_armored, alice) = make_cert("alice");
    let (mallory_armored, mallory) = make_cert("mallory");
    let mut m = MessageUtils::new(&admin_armored);

    let mut r = frame("register");
    r.username = Some("alice".to_string());
    r.public_key = Some(alice_armored.clone());
    r.signature = Some(sign_detached(&alice, &alice_armored));
    assert_eq!(
        status_of(&m.process_received_message("tag-1", &r)),
        ReplyStatus::Pending
    );
    let mut a = frame("approveGroup");
    a.username = Some("alice".to_string());
    a.signature = Some(sign_detached(&admin, "alice"));
    assert_eq!(
        status_of(&m.process_received_message("tag-1", &a)),
        ReplyStatus::Success
    );

    // A connect that presents a different key is refused on the
    // fingerprint, even though mallory's signature over the username is
    // itself valid.
    let mut c = frame("connect");
    c.username = Some("alice".to_string());
    c.public_key = Some(mallory_armored.clone());
    c.signature = Some(sign_detached(&mallory, "alice"));
    assert_eq!(
        status_of(&m.process_received_message("tag-2", &c)),
        ReplyStatus::ErrFingerprintMismatch
    );

    // A connect that presents the right key but a signature by another
    // key fails on the signature.
    let mut c = frame("connect");
    c.username = Some("alice".to_string());
    c.public_key = Some(alice_armored.clone());
    c.signature = Some(sign_detached(&mallory, "alice"));
    assert_eq!(
        status_of(&m.process_received_message("tag-2", &c)),
        ReplyStatus::ErrBadSignature
    );

    // The honest connect succeeds.
    let mut c = frame("connect");
    c.username = Some("alice".to_string());
    c.public_key = Some(alice_armored);
    c.signature = Some(sign_detached(&alice, "alice"));
    assert_eq!(
        status_of(&m.process_received_message("tag-2", &c)),
        ReplyStatus::Success
    );
}

#[test]
fn test_fetch_signature_is_over_cursor() {
    let (admin_armored, admin) = make_cert("relay-admin");
    let (alice_armored, alice) = make_cert("alice");
    let mut m = MessageUtils::new(&admin_armored);
    enroll(&mut m, &admin, "alice", &alice_armored, &alice, "tag-alice");

    let mut c = frame("createGroup");
    c.group_name = Some("notes".to_string());
    let gid = group_id_of(&m.process_received_message("tag-alice", &c));

    // A signature over the wrong cursor text does not check.
    let mut f = frame("fetchGroup");
    f.group_id = Some(gid.clone());
    f.last_seen_id = Some("0-0".to_string());
    f.signature = Some(sign_detached(&alice, "1-0"));
    assert_eq!(
        status_of(&m.process_received_message("tag-alice", &f)),
        ReplyStatus::ErrBadSignature
    );

    // The right one does.
    let mut f = frame("fetchGroup");
    f.group_id = Some(gid.clone());
    f.last_seen_id = Some("0-0".to_string());
    f.signature = Some(sign_detached(&alice, "0-0"));
    let out = m.process_received_message("tag-alice", &f);
    assert!(matches!(
        &out.reply.as_ref().unwrap().body,
        ReplyBody::Messages(v) if v.is_empty()
    ));

    // A fetch that carries no lastSeenId reads from the log's origin;
    // its signature is over the default cursor spelling.
    let mut s = frame("sendGroup");
    s.group_id = Some(gid.clone());
    s.ciphertext = Some("first".to_string());
    assert_eq!(
        status_of(&m.process_received_message("tag-alice", &s)),
        ReplyStatus::Success
    );
    let mut f = frame("fetchGroup");
    f.group_id = Some(gid);
    f.signature = Some(sign_detached(&alice, "0-0"));
    let out = m.process_received_message("tag-alice", &f);
    assert!(matches!(
        &out.reply.as_ref().unwrap().body,
        ReplyBody::Messages(v) if v.len() == 1 && v[0].ciphertext == "first"
    ));
}
