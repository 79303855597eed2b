//! Signature checks and key fingerprints, through Sequoia OpenPGP.
//!
//! Every privileged protocol action rests on a detached-signature check
//! against an ASCII-armored public key block, and `connect` additionally
//! compares key fingerprints.  The OpenPGP calls are trusted; everything
//! that decides on their results is verified.

use sequoia_openpgp::Cert;
use sequoia_openpgp::Packet;
use sequoia_openpgp::PacketPile;
use sequoia_openpgp::packet::Signature;
use sequoia_openpgp::parse::Parse;
use sequoia_openpgp::policy::StandardPolicy;
use vstd::prelude::*;

verus! {

#[verifier::external_type_specification]
#[verifier::external_body]
pub struct ExSignature(Signature);

/// The hexadecimal fingerprint of the certificate an armored key block
/// parses to, or `None` where the block does not parse as a certificate.
pub uninterp spec fn cert_fingerprint_of(armored: Seq<char>) -> Option<Seq<char>>;

/// Relies on `sequoia_openpgp::Cert::from_reader` and `Cert::fingerprint`:
/// parsing is deterministic and the fingerprint is a digest of the key
/// material alone, so the result is a function of the armored text, and
/// re-armoring the same certificate differently leaves it unchanged.
#[verifier::external_body]
fn cert_fingerprint(public_key_armored: &str) -> (r: Option<String>)
    ensures
        r.deep_view() == cert_fingerprint_of(public_key_armored@),
{
    Cert::from_reader(public_key_armored.as_bytes()).ok().map(|c| c.fingerprint().to_hex())
}

/// Whether an armored text decodes to a detached-signature packet.
/// Decoding is deterministic in the text alone.
pub uninterp spec fn signature_decodes(armored: Seq<char>) -> bool;

/// Relies on `sequoia_openpgp::PacketPile::from_bytes` (armor is detected
/// automatically) to decode an ASCII-armored detached signature, taking
/// the first signature packet found, as a detached signature carries one.
/// Parsing is deterministic, so whether a packet comes out is a function
/// of the armored text.
#[verifier::external_body]
fn decode_signature(signature_armored: &str) -> (r: Option<Signature>)
    ensures
        r is Some <==> signature_decodes(signature_armored@),
{
    let pile = match PacketPile::from_bytes(signature_armored.as_bytes()) {
        Ok(p) => p,
        Err(_) => {
            return None;
        },
    };
    pile.into_children().find_map(
        |p| match p {
            Packet::Signature(s) => Some(s),
            _ => None,
        },
    )
}

/// Relies on `Cert::from_reader`, the signing-key iteration
/// `Cert::keys` / `with_policy` / `supported` / `alive` / `for_signing`,
/// and `Signature::verify_message`: whether the signature checks against
/// some currently-valid signing key of the certificate.  Key aliveness is
/// judged at the time of the call, so of a positive verdict nothing is
/// promised; what is promised is the refusal: a key block that does not
/// parse — the same parse that `cert_fingerprint_of` names — never
/// verifies anything.
#[verifier::external_body]
fn signature_checks(public_key_armored: &str, message: &str, sig: &Signature) -> (r: bool)
    ensures
        cert_fingerprint_of(public_key_armored@) is None ==> r == false,
{
    let cert = match Cert::from_reader(public_key_armored.as_bytes()) {
        Ok(c) => c,
        Err(_) => {
            return false;
        },
    };
    let policy = StandardPolicy::new();
    cert.keys().with_policy(&policy, None).supported().alive().for_signing().any(
        |binding| sig.verify_message(binding.key(), message.as_bytes()).is_ok(),
    )
}

/// Verify an ASCII-armored detached signature over `message` against an
/// ASCII-armored public key block.
///
/// A key block or signature that does not parse is simply "not verified":
/// the check never panics and never errs, and the contract pins both
/// refusals.  Whether a well-formed signature checks against a
/// well-formed key depends on key validity at the time of the call, so
/// of that verdict the caller learns no more than the returned bit.
pub fn verify_pgp_signature(
    public_key_armored: &str,
    message: &str,
    signature_armored: &str,
) -> (r: bool)
    ensures
        !signature_decodes(signature_armored@) ==> r == false,
        cert_fingerprint_of(public_key_armored@) is None ==> r == false,
{
    match decode_signature(signature_armored) {
        Some(sig) => signature_checks(public_key_armored, message, &sig),
        None => false,
    }
}

/// Whether two armored key blocks carry the same key: both parse as
/// certificates and their fingerprints agree.  Comparing fingerprints
/// rather than bytes tolerates armor whitespace and formatting
/// differences between the two blocks.
pub fn same_key_fingerprint(a: &str, b: &str) -> (r: bool)
    ensures
        r == (cert_fingerprint_of(a@) is Some && cert_fingerprint_of(a@) == cert_fingerprint_of(
            b@,
        )),
{
    match (cert_fingerprint(a), cert_fingerprint(b)) {
        (Some(fa), Some(fb)) => fa == fb,
        _ => false,
    }
}

} // verus!
