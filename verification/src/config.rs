//! The identity that a client keeps between runs.

use crate::item::to_array_32;
use vstd::prelude::*;
use vstd::slice::slice_subrange;

verus! {

/// Length of a stored key pair: the secret key, then the public key.
pub const KEYPAIR_LEN: usize = 64;

/// The identity of a client: its name and its Ed25519 key pair.
#[derive(Debug, Clone, PartialEq, Eq)]
pub struct ClientConfig {
    /// The name under which the client appears.
    pub username: String,
    /// The key pair as raw bytes: 32 of the secret key, 32 of the public key.
    pub keypair: Vec<u8>,
}

/// A client's identity as plain values.
pub struct ClientConfigView {
    pub username: Seq<char>,
    pub keypair: Seq<u8>,
}

impl View for ClientConfig {
    type V = ClientConfigView;

    open spec fn view(&self) -> ClientConfigView {
        ClientConfigView { username: self.username@, keypair: self.keypair@ }
    }
}

impl ClientConfig {
    /// An identity of the given name and key pair.
    pub fn new(username: String, keypair: Vec<u8>) -> (config: ClientConfig)
        ensures
            config@.username == username@,
            config@.keypair == keypair@,
    {
        ClientConfig { username, keypair }
    }

    /// The secret key and the public key of the stored pair.
    ///
    /// Gives the two halves exactly when the pair has its 64 bytes.
    pub fn keys(&self) -> (r: Option<([u8; 32], [u8; 32])>)
        ensures
            self@.keypair.len() == 64 ==> r is Some && r->Some_0.0@ == self@.keypair.subrange(0, 32)
                && r->Some_0.1@ == self@.keypair.subrange(32, 64),
            self@.keypair.len() != 64 ==> r is None,
    {
        if self.keypair.len() != KEYPAIR_LEN {
            return None;
        }
        let bytes = self.keypair.as_slice();
        let secret = to_array_32(slice_subrange(bytes, 0, 32));
        let public = to_array_32(slice_subrange(bytes, 32, 64));
        match (secret, public) {
            (Some(secret), Some(public)) => Some((secret, public)),
            _ => None,
        }
    }
}

} // verus!
