//! The messages of the Bonk protocol and their mathematical views.

use vstd::prelude::*;

verus! {

/// Length of a public key in bytes.
pub const PUBLIC_KEY_LEN: usize = 32;

/// Length of a signal identifier in bytes.
pub const SIGNAL_ID_LEN: usize = 16;

/// Length of a nonce in bytes.
pub const NONCE_LEN: usize = 32;

/// Length of a signature in bytes.
pub const SIGNATURE_LEN: usize = 64;

/// One entry of the peer directory: who a peer is and where to reach it.
#[derive(Debug, Clone, PartialEq, Eq)]
pub struct PeerInformation {
    pub public_key: [u8; 32],
    pub address: String,
}

/// A peer entry as plain values.
pub struct PeerInformationView {
    pub public_key: Seq<u8>,
    pub address: Seq<char>,
}

impl PeerInformationView {
    /// The key has the length of a public key.
    pub open spec fn wf(self) -> bool {
        self.public_key.len() == 32
    }
}

impl View for PeerInformation {
    type V = PeerInformationView;

    open spec fn view(&self) -> PeerInformationView {
        PeerInformationView { public_key: self.public_key@, address: self.address@ }
    }
}

/// An encrypted payload with the nonce it was sealed under.
#[derive(Debug, Clone, PartialEq, Eq)]
pub struct EncryptedData {
    pub nonce: [u8; 32],
    pub ciphertext: Vec<u8>,
}

/// An encrypted payload as plain values.
pub struct EncryptedDataView {
    pub nonce: Seq<u8>,
    pub ciphertext: Seq<u8>,
}

impl EncryptedDataView {
    /// The nonce has the length of a nonce.
    pub open spec fn wf(self) -> bool {
        self.nonce.len() == 32
    }
}

impl View for EncryptedData {
    type V = EncryptedDataView;

    open spec fn view(&self) -> EncryptedDataView {
        EncryptedDataView { nonce: self.nonce@, ciphertext: self.ciphertext@ }
    }
}

/// The error of reading a signature from a byte sequence of the wrong length.
#[derive(Debug, Clone, Copy, PartialEq, Eq, Structural)]
pub struct InvalidLength {
    /// The number of bytes a signature has.
    pub expected: usize,
    /// The number of bytes that were given.
    pub found: usize,
}

/// A detached signature: exactly 64 raw bytes.
#[derive(Debug, Clone, PartialEq, Eq)]
pub struct Signature(pub [u8; 64]);

impl View for Signature {
    type V = Seq<u8>;

    open spec fn view(&self) -> Seq<u8> {
        self.0@
    }
}

impl Signature {
    /// Reads a signature from raw bytes.
    ///
    /// Succeeds exactly on 64 bytes, and then holds those bytes; any other
    /// length is reported with the length found.
    pub fn from_slice(bytes: &[u8]) -> (r: Result<Signature, InvalidLength>)
        ensures
            bytes@.len() == 64 ==> r is Ok && r->Ok_0@ == bytes@,
            bytes@.len() != 64 ==> r == Err::<Signature, InvalidLength>(
                InvalidLength { expected: 64, found: bytes@.len() as usize },
            ),
    {
        if bytes.len() != SIGNATURE_LEN {
            return Err(InvalidLength { expected: SIGNATURE_LEN, found: bytes.len() });
        }
        let mut array: [u8; 64] = [0u8; 64];
        let mut i: usize = 0;
        while i < SIGNATURE_LEN
            invariant
                i <= 64,
                bytes@.len() == 64,
                forall|j: int| 0 <= j < i ==> array@[j] == bytes@[j],
            decreases 64 - i,
        {
            array[i] = bytes[i];
            i += 1;
        }
        assert(array@ =~= bytes@);
        Ok(Signature(array))
    }

    /// The 64 raw bytes of the signature.
    pub fn to_vec(&self) -> (bytes: Vec<u8>)
        ensures
            bytes@ == self@,
    {
        let mut bytes: Vec<u8> = Vec::with_capacity(SIGNATURE_LEN);
        let mut i: usize = 0;
        while i < SIGNATURE_LEN
            invariant
                i <= 64,
                bytes@ == self.0@.subrange(0, i as int),
            decreases 64 - i,
        {
            bytes.push(self.0[i]);
            i += 1;
            assert(bytes@ =~= self.0@.subrange(0, i as int));
        }
        assert(bytes@ =~= self.0@);
        bytes
    }
}

/// A signed, encrypted payload from one peer to another.
#[derive(Debug, Clone, PartialEq, Eq)]
pub struct Signal {
    pub signal_id: [u8; 16],
    pub sender: [u8; 32],
    pub receiver: [u8; 32],
    pub encrypted_data: EncryptedData,
    pub signature: Signature,
}

/// A signal as plain values.
pub struct SignalView {
    pub signal_id: Seq<u8>,
    pub sender: Seq<u8>,
    pub receiver: Seq<u8>,
    pub encrypted_data: EncryptedDataView,
    pub signature: Seq<u8>,
}

impl SignalView {
    /// Every field of fixed size has its size.
    pub open spec fn wf(self) -> bool {
        &&& self.signal_id.len() == 16
        &&& self.sender.len() == 32
        &&& self.receiver.len() == 32
        &&& self.encrypted_data.wf()
        &&& self.signature.len() == 64
    }
}

impl View for Signal {
    type V = SignalView;

    open spec fn view(&self) -> SignalView {
        SignalView {
            signal_id: self.signal_id@,
            sender: self.sender@,
            receiver: self.receiver@,
            encrypted_data: self.encrypted_data@,
            signature: self.signature@,
        }
    }
}

/// A message of the Bonk protocol.
#[derive(Debug, Clone, PartialEq, Eq)]
pub enum Message {
    /// A keep-alive that asks for nothing.
    Bonk,
    /// The sender's public key; the first message on every connection.
    Handshake([u8; 32]),
    /// A peer to enter into the directory.
    PublishPeer(PeerInformation),
    /// A request for the peers that the receiver knows.
    RequestPeers,
    /// A signal to pass on.
    Broadcast(Signal),
}

/// A message as plain values.
pub enum MessageView {
    Bonk,
    Handshake(Seq<u8>),
    PublishPeer(PeerInformationView),
    RequestPeers,
    Broadcast(SignalView),
}

impl MessageView {
    /// Every field of fixed size has its size.
    pub open spec fn wf(self) -> bool {
        match self {
            MessageView::Bonk => true,
            MessageView::Handshake(key) => key.len() == 32,
            MessageView::PublishPeer(info) => info.wf(),
            MessageView::RequestPeers => true,
            MessageView::Broadcast(signal) => signal.wf(),
        }
    }
}

impl View for Message {
    type V = MessageView;

    open spec fn view(&self) -> MessageView {
        match self {
            Message::Bonk => MessageView::Bonk,
            Message::Handshake(key) => MessageView::Handshake(key@),
            Message::PublishPeer(info) => MessageView::PublishPeer(info@),
            Message::RequestPeers => MessageView::RequestPeers,
            Message::Broadcast(signal) => MessageView::Broadcast(signal@),
        }
    }
}

} // verus!
