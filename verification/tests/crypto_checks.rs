use std::io::Write;

use groupd::crypto::{same_key_fingerprint, verify_pgp_signature};
use sequoia_openpgp::armor::Kind as ArmorKind;
use sequoia_openpgp::cert::CertBuilder;
use sequoia_openpgp::policy::StandardPolicy;
use sequoia_openpgp::serialize::stream::{Armorer, Message, Signer};
use sequoia_openpgp::serialize::SerializeInto;
use sequoia_openpgp::Cert;

fn make_cert(name: &str) -> (String, Cert) {
    let (cert, _revocation) = CertBuilder::new()
        .add_userid(name)
        .add_signing_subkey()
        .generate()
        .unwrap();
    let armored = String::from_utf8(cert.armored().to_vec().unwrap()).unwrap();
    (armored, cert)
}

fn sign_detached(cert: &Cert, payload: &str) -> String {
    let policy = StandardPolicy::new();
    let keypair = cert
        .keys()
        .unencrypted_secret()
        .with_policy(&policy, None)
        .supported()
        .alive()
        .for_signing()
        .next()
        .unwrap()
        .key()
        .clone()
        .into_keypair()
        .unwrap();
    let mut buf = Vec::new();
    {
        let message = Message::new(&mut buf);
        let message = Armorer::new(message).kind(ArmorKind::Signature).build().unwrap();
        let mut signer = Signer::new(message, keypair).unwrap().detached().build().unwrap();
        signer.write_all(payload.as_bytes()).unwrap();
        signer.finalize().unwrap();
    }
    String::from_utf8(buf).unwrap()
}

#[test]
fn test_verify_detached_signature() {
    let (armored, cert) = make_cert("alice");
    let sig = sign_detached(&cert, "hello world");
    assert!(verify_pgp_signature(&armored, "hello world", &sig));
    // The same signature does not check over another message.
    assert!(!verify_pgp_signature(&armored, "hello worlds", &sig));
    // Nor against another certificate.
    let (other_armored, _other) = make_cert("mallory");
    assert!(!verify_pgp_signature(&other_armored, "hello world", &sig));
    // Malformed input is simply "not verified", never a panic.
    assert!(!verify_pgp_signature("not a key", "hello world", &sig));
    assert!(!verify_pgp_signature(&armored, "hello world", "not a signature"));
    assert!(!verify_pgp_signature("", "", ""));
}

#[test]
fn test_fingerprint_comparison() {
    let (armored, _cert) = make_cert("alice");
    let (other_armored, _other) = make_cert("bob");
    // A certificate matches itself and tolerates armor formatting
    // differences: extra surrounding whitespace does not change the key.
    assert!(same_key_fingerprint(&armored, &armored));
    let padded = format!("\n{}\n\n", armored);
    assert!(same_key_fingerprint(&armored, &padded));
    // Distinct keys do not match, and the comparison is not a string
    // comparison of the armor.
    assert!(!same_key_fingerprint(&armored, &other_armored));
    // Text that is no certificate matches nothing, itself included.
    assert!(!same_key_fingerprint("junk", "junk"));
    assert!(!same_key_fingerprint(&armored, "junk"));
}
