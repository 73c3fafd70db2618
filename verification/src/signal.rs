//! Signing and checking of signals.
//!
//! A signal carries an Ed25519 signature of its sender over the bytes of its
//! identifier, sender, receiver, nonce and ciphertext, in that order. The
//! curve arithmetic is done by `ed25519_dalek`; this module decides which
//! bytes are signed and which key checks them.

use crate::message::{EncryptedData, Signal, SignalView, Signature};
use ed25519_dalek::{Signer, SigningKey, Verifier, VerifyingKey};
use vstd::prelude::*;

verus! {

/// Whether Ed25519 verification accepts `signature` for `message` under the
/// public key `public_key`. A key that is no point of the curve accepts
/// nothing.
pub uninterp spec fn ed25519_accepts(
    public_key: Seq<u8>,
    message: Seq<u8>,
    signature: Seq<u8>,
) -> bool;

/// The Ed25519 signature of `message` under the secret key `secret_key`.
pub uninterp spec fn ed25519_signature(secret_key: Seq<u8>, message: Seq<u8>) -> Seq<u8>;

/// The Ed25519 public key that belongs to the secret key `secret_key`.
pub uninterp spec fn ed25519_public_key(secret_key: Seq<u8>) -> Seq<u8>;

/// Checks a signature by `ed25519_dalek::VerifyingKey::verify`, on the key
/// that `VerifyingKey::from_bytes` reads from `public_key`.
///
/// Claimed of those functions: whether they accept depends on the three
/// byte strings alone. Bytes that are no key are reported as not accepted.
#[verifier::external_body]
fn verify_detached(public_key: &[u8; 32], message: &[u8], signature: &[u8; 64]) -> (ok: bool)
    ensures
        ok == ed25519_accepts(public_key@, message@, signature@),
{
    match VerifyingKey::from_bytes(public_key) {
        Ok(key) => key.verify(message, &ed25519_dalek::Signature::from_bytes(signature)).is_ok(),
        Err(_) => false,
    }
}

/// Signs `message` by `ed25519_dalek::SigningKey::sign`, on the key that
/// `SigningKey::from_bytes` makes of `secret_key`.
///
/// Claimed of that function: the signature depends on the key and the
/// message alone (Ed25519 draws no randomness), and verification under the
/// public key of the same secret key accepts it.
#[verifier::external_body]
fn sign_detached(secret_key: &[u8; 32], message: &[u8]) -> (signature: [u8; 64])
    ensures
        signature@ == ed25519_signature(secret_key@, message@),
        ed25519_accepts(ed25519_public_key(secret_key@), message@, signature@),
{
    SigningKey::from_bytes(secret_key).sign(message).to_bytes()
}

/// Derives the public key by `ed25519_dalek::SigningKey::verifying_key`, on
/// the key that `SigningKey::from_bytes` makes of `secret_key`.
///
/// Claimed of that function: the public key depends on the secret key alone.
#[verifier::external_body]
fn derive_public_key(secret_key: &[u8; 32]) -> (public_key: [u8; 32])
    ensures
        public_key@ == ed25519_public_key(secret_key@),
{
    SigningKey::from_bytes(secret_key).verifying_key().to_bytes()
}

/// The bytes that the signature of a signal covers.
pub open spec fn signing_input(signal: SignalView) -> Seq<u8> {
    signal.signal_id + signal.sender + signal.receiver + signal.encrypted_data.nonce
        + signal.encrypted_data.ciphertext
}

/// Whether the signature of a signal is accepted under its sender's key.
pub open spec fn signature_holds(signal: SignalView) -> bool {
    ed25519_accepts(signal.sender, signing_input(signal), signal.signature)
}

/// The signed bytes decide the signed fields: two signals whose signatures
/// cover the same bytes agree on identifier, sender, receiver, nonce and
/// ciphertext. So a change to any of the five, be it of one bit, changes
/// the bytes that the signature is checked against.
pub proof fn lemma_signing_input_injective(a: SignalView, b: SignalView)
    requires
        a.wf(),
        b.wf(),
        signing_input(a) == signing_input(b),
    ensures
        a.signal_id == b.signal_id,
        a.sender == b.sender,
        a.receiver == b.receiver,
        a.encrypted_data == b.encrypted_data,
{
    let x = signing_input(a);
    let y = signing_input(b);
    assert(a.signal_id =~= x.subrange(0, 16));
    assert(b.signal_id =~= y.subrange(0, 16));
    assert(a.sender =~= x.subrange(16, 48));
    assert(b.sender =~= y.subrange(16, 48));
    assert(a.receiver =~= x.subrange(48, 80));
    assert(b.receiver =~= y.subrange(48, 80));
    assert(a.encrypted_data.nonce =~= x.subrange(80, 112));
    assert(b.encrypted_data.nonce =~= y.subrange(80, 112));
    assert(a.encrypted_data.ciphertext =~= x.subrange(112, x.len() as int));
    assert(b.encrypted_data.ciphertext =~= y.subrange(112, y.len() as int));
}

/// The bytes to sign for the given fields.
fn signing_bytes(
    signal_id: &[u8; 16],
    sender: &[u8; 32],
    receiver: &[u8; 32],
    encrypted_data: &EncryptedData,
) -> (bytes: Vec<u8>)
    ensures
        bytes@ == signal_id@ + sender@ + receiver@ + encrypted_data@.nonce
            + encrypted_data@.ciphertext,
{
    let mut bytes: Vec<u8> = Vec::new();
    bytes.extend_from_slice(signal_id.as_slice());
    bytes.extend_from_slice(sender.as_slice());
    bytes.extend_from_slice(receiver.as_slice());
    bytes.extend_from_slice(encrypted_data.nonce.as_slice());
    bytes.extend_from_slice(encrypted_data.ciphertext.as_slice());
    assert(bytes@ =~= signal_id@ + sender@ + receiver@ + encrypted_data@.nonce
        + encrypted_data@.ciphertext);
    bytes
}

impl Signal {
    /// The bytes that the signature of this signal covers.
    pub fn signed_bytes(&self) -> (bytes: Vec<u8>)
        ensures
            bytes@ == signing_input(self@),
    {
        signing_bytes(&self.signal_id, &self.sender, &self.receiver, &self.encrypted_data)
    }

    /// Builds a signal from `secret_key`'s owner to `receiver` and signs it.
    ///
    /// The sender is the public key of `secret_key`, the signature is the
    /// owner's over the signed bytes, and the signal passes `verify`.
    pub fn seal(
        secret_key: &[u8; 32],
        signal_id: [u8; 16],
        receiver: [u8; 32],
        encrypted_data: EncryptedData,
    ) -> (signal: Signal)
        ensures
            signal@.signal_id == signal_id@,
            signal@.sender == ed25519_public_key(secret_key@),
            signal@.receiver == receiver@,
            signal@.encrypted_data == encrypted_data@,
            signal@.signature == ed25519_signature(secret_key@, signing_input(signal@)),
            signature_holds(signal@),
    {
        let sender = derive_public_key(secret_key);
        let bytes = signing_bytes(&signal_id, &sender, &receiver, &encrypted_data);
        let signature = sign_detached(secret_key, bytes.as_slice());
        Signal { signal_id, sender, receiver, encrypted_data, signature: Signature(signature) }
    }

    /// Whether the signature is the sender's over the signed bytes.
    pub fn verify(&self) -> (ok: bool)
        ensures
            ok == signature_holds(self@),
    {
        let bytes = self.signed_bytes();
        verify_detached(&self.sender, bytes.as_slice(), &self.signature.0)
    }
}

} // verus!
