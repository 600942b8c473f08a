//! Digests, base64 and signatures.
//!
//! The computations belong to `sha2`, `base64` and `sodiumoxide`. Their results are named
//! here, so that the rest of the library can say exactly what it does with them.
use vstd::prelude::*;

use crate::text;

verus! {

/// The SHA-256 digest of bytes.
pub uninterp spec fn sha256_digest(data: Seq<u8>) -> Seq<u8>;

/// The bytes that a text writes in standard base64 with padding, as libsodium decodes it;
/// nothing where it refuses the text.
pub uninterp spec fn b64_decoded(text: Seq<char>) -> Option<Seq<u8>>;

/// The standard base64 text of bytes, with padding, as libsodium encodes it.
pub uninterp spec fn b64_encoded(data: Seq<u8>) -> Seq<char>;

/// The text that the standard engine of `base64` writes for bytes.
pub uninterp spec fn standard_b64(data: Seq<u8>) -> Seq<char>;

/// Whether 64 bytes are an Ed25519 signature of a message under a public key.
pub uninterp spec fn ed25519_valid(sig: Seq<u8>, msg: Seq<u8>, pk: Seq<u8>) -> bool;

/// The Ed25519 signature of a message under a secret key.
pub uninterp spec fn ed25519_signature(msg: Seq<u8>, sk: Seq<u8>) -> Seq<u8>;

/// `sha2::Sha256::digest`: the 32 bytes of the SHA-256 digest.
#[verifier::external_body]
pub(crate) fn sha256(data: &[u8]) -> (r: Vec<u8>)
    ensures
        r@ == sha256_digest(data@),
        r@.len() == 32,
{
    <sha2::Sha256 as sha2::Digest>::digest(data).to_vec()
}

/// `sodiumoxide::base64::decode` with the variant `Original`.
#[verifier::external_body]
pub(crate) fn b64_decode(text: &str) -> (r: Option<Vec<u8>>)
    ensures
        match r {
            Some(b) => b64_decoded(text@) == Some(b@),
            None => b64_decoded(text@) is None,
        },
{
    sodiumoxide::base64::decode(text, sodiumoxide::base64::Variant::Original).ok()
}

/// `sodiumoxide::base64::encode` with the variant `Original`. What it writes, `decode` reads
/// back.
#[verifier::external_body]
pub(crate) fn b64_encode(data: &[u8]) -> (r: String)
    ensures
        r@ == b64_encoded(data@),
        b64_decoded(r@) == Some(data@),
{
    sodiumoxide::base64::encode(data, sodiumoxide::base64::Variant::Original)
}

/// `base64::engine::general_purpose::STANDARD.encode`.
#[verifier::external_body]
pub(crate) fn b64_standard(data: &[u8]) -> (r: String)
    ensures
        r@ == standard_b64(data@),
{
    base64::Engine::encode(&base64::engine::general_purpose::STANDARD, data)
}

/// `sodiumoxide::crypto::sign::verify`: the message that follows the 64 bytes of the signature,
/// where that is a signature of the message under the public key.
#[verifier::external_body]
pub(crate) fn open_signed(attached: &[u8], pk: &[u8]) -> (r: Option<Vec<u8>>)
    requires
        pk@.len() == 32,
    ensures
        match r {
            Some(m) => attached@.len() >= 64 && m@ == attached@.skip(64) && ed25519_valid(
                attached@.take(64),
                attached@.skip(64),
                pk@,
            ),
            None => attached@.len() < 64 || !ed25519_valid(
                attached@.take(64),
                attached@.skip(64),
                pk@,
            ),
        },
{
    let key = sodiumoxide::crypto::sign::PublicKey::from_slice(pk)?;
    sodiumoxide::crypto::sign::verify(attached, &key).ok()
}

/// `sodiumoxide::crypto::sign::sign_detached`: the 64 bytes of the signature of a message under
/// a secret key.
#[verifier::external_body]
pub(crate) fn sign_detached(msg: &[u8], sk: &[u8]) -> (r: Vec<u8>)
    requires
        sk@.len() == 64,
    ensures
        r@ == ed25519_signature(msg@, sk@),
        r@.len() == 64,
{
    let key = sodiumoxide::crypto::sign::SecretKey::from_slice(sk).unwrap();
    sodiumoxide::crypto::sign::sign_detached(msg, &key).as_ref().to_vec()
}

/// `sodiumoxide::crypto::sign::sign`: the 64 bytes of the signature of a message under a secret
/// key, and the message behind them.
#[verifier::external_body]
pub(crate) fn sign_attached(msg: &[u8], sk: &[u8]) -> (r: Vec<u8>)
    requires
        sk@.len() == 64,
    ensures
        r@ == ed25519_signature(msg@, sk@) + msg@,
{
    let key = sodiumoxide::crypto::sign::SecretKey::from_slice(sk).unwrap();
    sodiumoxide::crypto::sign::sign(msg, &key)
}

/// The message of an attached signature under a base64 public key: both decode, the signed
/// text is at most `max` bytes past its signature, the key is 32 bytes and the signature holds.
pub open spec fn recovered(pk_b64: Seq<char>, sig_b64: Seq<char>, max: nat) -> Option<Seq<u8>> {
    match (b64_decoded(pk_b64), b64_decoded(sig_b64)) {
        (Some(pk), Some(att)) => if 64 <= att.len() <= 64 + max && pk.len() == 32
            && ed25519_valid(att.take(64), att.skip(64), pk) {
            Some(att.skip(64))
        } else {
            None
        },
        _ => None,
    }
}

/// The message of an attached signature under a base64 public key.
pub fn recover(pk_b64: &str, sig_b64: &str, max: usize) -> (r: Option<Vec<u8>>)
    ensures
        match r {
            Some(m) => recovered(pk_b64@, sig_b64@, max as nat) == Some(m@),
            None => recovered(pk_b64@, sig_b64@, max as nat) is None,
        },
{
    match (b64_decode(pk_b64), b64_decode(sig_b64)) {
        (Some(pk), Some(att)) => {
            if att.len() < 64 || att.len() - 64 > max || pk.len() != 32 {
                return None;
            }
            open_signed(att.as_slice(), pk.as_slice())
        },
        _ => None,
    }
}

/// Whether a recovered message is the expected text.
pub open spec fn message_is_v(message: Option<Seq<u8>>, expected: Seq<char>) -> bool {
    message == Some(vstd::utf8::encode_utf8(expected))
}

/// Whether two byte strings are equal.
pub fn same_bytes(a: &[u8], b: &[u8]) -> (r: bool)
    ensures
        r == (a@ == b@),
{
    if a.len() != b.len() {
        return false;
    }
    let mut i: usize = 0;
    while i < a.len()
        invariant
            i <= a@.len(),
            a@.len() == b@.len(),
            forall|k: int| 0 <= k < i ==> a@[k] == b@[k],
        decreases a@.len() - i,
    {
        if a[i] != b[i] {
            return false;
        }
        i = i + 1;
    }
    assert(a@ == b@);
    true
}

/// Whether a recovered message is the expected text.
pub fn message_is(message: &Option<Vec<u8>>, expected: &str) -> (r: bool)
    ensures
        r == message_is_v(
            text::opt_bytes(*message),
            expected@,
        ),
{
    match message {
        Some(m) => same_bytes(m.as_slice(), expected.as_bytes()),
        None => false,
    }
}

/// A signed message is recovered where the key has 32 bytes, the text decodes to a signature of
/// 64 bytes and a message that is not too long, and the signature is one of that message under
/// that key; and it is that message.
pub proof fn only_a_valid_signature_gives_its_message(
    pk_b64: Seq<char>,
    sig_b64: Seq<char>,
    max: nat,
    pk: Seq<u8>,
    sig: Seq<u8>,
    message: Seq<u8>,
)
    requires
        sig.len() == 64,
        b64_decoded(pk_b64) == Some(pk),
        b64_decoded(sig_b64) == Some(sig + message),
    ensures
        recovered(pk_b64, sig_b64, max) == (if pk.len() == 32 && message.len() <= max
            && ed25519_valid(sig, message, pk) {
            Some(message)
        } else {
            None
        }),
{
    let att = sig + message;
    assert(att.take(64) =~= sig);
    assert(att.skip(64) =~= message);
}

/// What does not decode, or is shorter than a signature, gives no message.
pub proof fn a_broken_signature_gives_no_message(pk_b64: Seq<char>, sig_b64: Seq<char>, max: nat)
    ensures
        b64_decoded(pk_b64) is None ==> recovered(pk_b64, sig_b64, max) is None,
        b64_decoded(sig_b64) is None ==> recovered(pk_b64, sig_b64, max) is None,
        b64_decoded(sig_b64) matches Some(att) ==> att.len() < 64 ==> recovered(
            pk_b64,
            sig_b64,
            max,
        ) is None,
{
}

} // verus!
