//! The rules of one Bonk connection: handshake first, then messages.

use crate::codec::parse_message;
use crate::directory::{copy_peer, upserted, PeerDirectory};
use crate::endian::be32_value;
use crate::error::BonkError;
use crate::frame::payload_length;
use crate::message::{Message, MessageView, PeerInformationView, Signal, SignalView};
use crate::signal::signature_holds;
use crate::stream::{all_frameable, frames, frames_of};
use vstd::prelude::*;

verus! {

/// Where a session stands.
#[derive(Debug, Clone, Copy, PartialEq, Eq, Structural)]
pub enum SessionState {
    /// Nothing but a `Handshake` is accepted.
    AwaitingHandshake,
    /// The peer has declared its key; every message is processed.
    Active,
    /// The connection is over; whatever still arrives is ignored.
    Closed,
}

/// Why a signal was dropped.
#[derive(Debug, Clone, Copy, PartialEq, Eq, Structural)]
pub enum Rejection {
    /// The directory has no entry for the sender.
    UnknownSender,
    /// The signature is not the sender's over the signed bytes.
    BadSignature,
}

/// What the owner of the connection is to do after a message.
#[derive(Debug, Clone, PartialEq, Eq)]
pub enum Reply {
    /// Nothing.
    Nothing,
    /// Send these messages back, in this order.
    Send(Vec<Message>),
    /// Hand this signal, whose sender is known and whose signature holds, to
    /// the application for decryption.
    Deliver(Signal),
    /// Report that a signal was dropped; the session goes on.
    Rejected(Rejection),
}

/// A reply as plain values.
pub enum ReplyView {
    Nothing,
    Send(Seq<MessageView>),
    Deliver(SignalView),
    Rejected(Rejection),
}

/// The views of a list of messages.
pub open spec fn message_views(messages: Seq<Message>) -> Seq<MessageView> {
    Seq::new(messages.len(), |i: int| messages[i]@)
}

impl View for Reply {
    type V = ReplyView;

    open spec fn view(&self) -> ReplyView {
        match self {
            Reply::Nothing => ReplyView::Nothing,
            Reply::Send(messages) => ReplyView::Send(message_views(messages@)),
            Reply::Deliver(signal) => ReplyView::Deliver(signal@),
            Reply::Rejected(reason) => ReplyView::Rejected(*reason),
        }
    }
}

/// The state of one connection.
#[derive(Debug, Clone, PartialEq, Eq)]
pub struct Session {
    /// Where the session stands.
    pub state: SessionState,
    /// The public key of this node, which its own handshake carries.
    pub local_key: [u8; 32],
    /// The public key that the peer declared in its handshake.
    pub peer_key: Option<[u8; 32]>,
    /// Whether this side has sent its own handshake, or is about to.
    pub greeted: bool,
}

/// A session as plain values.
pub struct SessionView {
    pub state: SessionState,
    pub local_key: Seq<u8>,
    pub peer_key: Option<Seq<u8>>,
    pub greeted: bool,
}

impl View for Session {
    type V = SessionView;

    open spec fn view(&self) -> SessionView {
        SessionView {
            state: self.state,
            local_key: self.local_key@,
            peer_key: match self.peer_key {
                Some(key) => Some(key@),
                None => None,
            },
            greeted: self.greeted,
        }
    }
}

/// The session after its connection has ended: closed, with the keys it had.
pub open spec fn closed(session: SessionView) -> SessionView {
    SessionView {
        state: SessionState::Closed,
        local_key: session.local_key,
        peer_key: session.peer_key,
        greeted: session.greeted,
    }
}

/// The session after `message` has arrived.
///
/// Before the handshake, a `Handshake` records the peer's key and activates
/// the session, which by then has sent its own handshake or sends it in
/// answer; anything else closes the session. After the handshake no message
/// changes the session.
pub open spec fn next_session(session: SessionView, message: MessageView) -> SessionView {
    match session.state {
        SessionState::AwaitingHandshake => match message {
            MessageView::Handshake(key) => SessionView {
                state: SessionState::Active,
                local_key: session.local_key,
                peer_key: Some(key),
                greeted: true,
            },
            _ => closed(session),
        },
        _ => session,
    }
}

/// The directory after `message` has arrived on `session`: an active
/// session enters a published peer, and nothing else touches the directory.
pub open spec fn next_directory(
    session: SessionView,
    directory: Map<Seq<u8>, PeerInformationView>,
    message: MessageView,
) -> Map<Seq<u8>, PeerInformationView> {
    match message {
        MessageView::PublishPeer(info) => if session.state == SessionState::Active {
            directory.insert(info.public_key, info)
        } else {
            directory
        },
        _ => directory,
    }
}

/// The listing of the directory after `message` has arrived on `session`.
pub open spec fn next_listing(
    session: SessionView,
    listing: Seq<PeerInformationView>,
    message: MessageView,
) -> Seq<PeerInformationView> {
    match message {
        MessageView::PublishPeer(info) => if session.state == SessionState::Active {
            upserted(listing, info)
        } else {
            listing
        },
        _ => listing,
    }
}

/// What becomes of a signal: dropped where the sender is unknown, dropped
/// where the signature does not hold, delivered otherwise.
pub open spec fn verdict(sender_known: bool, signature_ok: bool, signal: SignalView) -> ReplyView {
    if !sender_known {
        ReplyView::Rejected(Rejection::UnknownSender)
    } else if !signature_ok {
        ReplyView::Rejected(Rejection::BadSignature)
    } else {
        ReplyView::Deliver(signal)
    }
}

/// The directory as a run of `PublishPeer` messages.
pub open spec fn publish_all(listing: Seq<PeerInformationView>) -> Seq<MessageView> {
    Seq::new(listing.len(), |i: int| MessageView::PublishPeer(listing[i]))
}

/// The answer to `message` on `session`, given the directory as it stood
/// when the message arrived.
pub open spec fn answer(
    session: SessionView,
    listing: Seq<PeerInformationView>,
    directory: Map<Seq<u8>, PeerInformationView>,
    message: MessageView,
) -> Result<ReplyView, BonkError> {
    match session.state {
        SessionState::AwaitingHandshake => match message {
            MessageView::Handshake(_) => if session.greeted {
                Ok(ReplyView::Nothing)
            } else {
                Ok(ReplyView::Send(seq![MessageView::Handshake(session.local_key)]))
            },
            _ => Err(BonkError::HandshakeIncomplete),
        },
        SessionState::Active => match message {
            MessageView::Bonk => Ok(ReplyView::Nothing),
            MessageView::Handshake(_) => Ok(ReplyView::Nothing),
            MessageView::PublishPeer(_) => Ok(ReplyView::Nothing),
            MessageView::RequestPeers => Ok(ReplyView::Send(publish_all(listing))),
            MessageView::Broadcast(signal) => Ok(
                verdict(directory.contains_key(signal.sender), signature_holds(signal), signal),
            ),
        },
        SessionState::Closed => Ok(ReplyView::Nothing),
    }
}

/// Handshake gating: before the handshake, every message but a `Handshake`
/// fails with `HandshakeIncomplete`, closes the session and leaves the
/// directory as it was.
pub proof fn lemma_handshake_gate(
    session: SessionView,
    listing: Seq<PeerInformationView>,
    directory: Map<Seq<u8>, PeerInformationView>,
    message: MessageView,
)
    requires
        session.state == SessionState::AwaitingHandshake,
        !(message is Handshake),
    ensures
        answer(session, listing, directory, message) == Err::<ReplyView, BonkError>(
            BonkError::HandshakeIncomplete,
        ),
        next_directory(session, directory, message) == directory,
        next_listing(session, listing, message) == listing,
        next_session(session, message).state == SessionState::Closed,
{
}

/// A handshake on a fresh session activates it and records the peer's
/// key. The side that accepted the connection answers with its own
/// handshake; the side that opened it has sent its own already and answers
/// nothing.
pub proof fn lemma_handshake_accepted(
    session: SessionView,
    listing: Seq<PeerInformationView>,
    directory: Map<Seq<u8>, PeerInformationView>,
    key: Seq<u8>,
)
    requires
        session.state == SessionState::AwaitingHandshake,
    ensures
        next_session(session, MessageView::Handshake(key)).state == SessionState::Active,
        next_session(session, MessageView::Handshake(key)).peer_key == Some(key),
        answer(session, listing, directory, MessageView::Handshake(key)) == Ok::<
            ReplyView,
            BonkError,
        >(
            if session.greeted {
                ReplyView::Nothing
            } else {
                ReplyView::Send(seq![MessageView::Handshake(session.local_key)])
            },
        ),
        next_directory(session, directory, MessageView::Handshake(key)) == directory,
{
}

/// No message ends or reopens a session after its handshake: an active
/// session stays active and a closed one stays closed.
pub proof fn lemma_state_is_kept(session: SessionView, message: MessageView)
    requires
        session.state != SessionState::AwaitingHandshake,
    ensures
        next_session(session, message) == session,
{
}

/// The keep-alive changes nothing and asks for nothing.
pub proof fn lemma_bonk_is_idle(
    session: SessionView,
    listing: Seq<PeerInformationView>,
    directory: Map<Seq<u8>, PeerInformationView>,
)
    requires
        session.state != SessionState::AwaitingHandshake,
    ensures
        next_session(session, MessageView::Bonk) == session,
        next_directory(session, directory, MessageView::Bonk) == directory,
        answer(session, listing, directory, MessageView::Bonk) == Ok::<ReplyView, BonkError>(
            ReplyView::Nothing,
        ),
{
}

impl Session {
    /// A session on a connection that was just accepted: it waits for the
    /// peer's handshake and will answer it with its own.
    pub fn new(local_key: [u8; 32]) -> (session: Session)
        ensures
            session@.state == SessionState::AwaitingHandshake,
            session@.local_key == local_key@,
            session@.peer_key is None,
            !session@.greeted,
    {
        Session {
            state: SessionState::AwaitingHandshake,
            local_key,
            peer_key: None,
            greeted: false,
        }
    }

    /// A session on a connection that was just opened, with the handshake
    /// that is to be sent first on it.
    pub fn open(local_key: [u8; 32]) -> (r: (Session, Message))
        ensures
            r.0@.state == SessionState::AwaitingHandshake,
            r.0@.local_key == local_key@,
            r.0@.peer_key is None,
            r.0@.greeted,
            r.1@ == MessageView::Handshake(local_key@),
    {
        (
            Session {
                state: SessionState::AwaitingHandshake,
                local_key,
                peer_key: None,
                greeted: true,
            },
            Message::Handshake(local_key),
        )
    }

    /// Ends the session: the stream is at its end or has failed.
    pub fn close(&mut self)
        ensures
            final(self)@ == closed(old(self)@),
    {
        self.state = SessionState::Closed;
    }

    /// Whether the session has ended.
    pub fn is_closed(&self) -> (closed: bool)
        ensures
            closed == (self@.state == SessionState::Closed),
    {
        self.state == SessionState::Closed
    }

    /// Moves the session on by one message.
    pub fn advance(&mut self, message: &Message)
        ensures
            final(self)@ == next_session(old(self)@, message@),
    {
        match self.state {
            SessionState::AwaitingHandshake => match message {
                Message::Handshake(key) => {
                    self.state = SessionState::Active;
                    self.peer_key = Some(*key);
                    self.greeted = true;
                },
                _ => {
                    self.state = SessionState::Closed;
                },
            },
            _ => {},
        }
    }
}

/// The directory as a run of `PublishPeer` messages.
pub fn publish_directory(directory: &PeerDirectory) -> (messages: Vec<Message>)
    ensures
        message_views(messages@) == publish_all(directory.listing()),
{
    let peers = directory.snapshot();
    let mut messages: Vec<Message> = Vec::new();
    let mut i: usize = 0;
    while i < peers.len()
        invariant
            i <= peers@.len(),
            messages@.len() == i,
            peers@.len() == directory.listing().len(),
            forall|j: int| 0 <= j < peers@.len() ==> (#[trigger] peers@[j])@ == directory.listing()[j],
            forall|j: int|
                0 <= j < i ==> (#[trigger] messages@[j])@ == publish_all(directory.listing())[j],
        decreases peers@.len() - i,
    {
        messages.push(Message::PublishPeer(copy_peer(&peers[i])));
        i += 1;
    }
    assert(message_views(messages@) =~= publish_all(directory.listing()));
    messages
}

impl Session {
    /// Processes one message that arrived on this session, against the
    /// directory that the sessions of a node share.
    ///
    /// The session moves as `next_session` says, the directory changes as
    /// `next_directory` and `next_listing` say, and the result is what
    /// `answer` gives on the session and the directory as they stood
    /// before. A failure concerns this session alone.
    pub fn receive(&mut self, directory: &mut PeerDirectory, message: Message) -> (r: Result<
        Reply,
        BonkError,
    >)
        ensures
            final(self)@ == next_session(old(self)@, message@),
            final(directory)@ == next_directory(old(self)@, old(directory)@, message@),
            final(directory).listing() == next_listing(
                old(self)@,
                old(directory).listing(),
                message@,
            ),
            match answer(old(self)@, old(directory).listing(), old(directory)@, message@) {
                Ok(reply) => r is Ok && r->Ok_0@ == reply,
                Err(e) => r == Err::<Reply, BonkError>(e),
            },
    {
        let before = self.state;
        let greeted = self.greeted;
        self.advance(&message);
        match before {
            SessionState::AwaitingHandshake => match message {
                Message::Handshake(_) => {
                    if greeted {
                        Ok(Reply::Nothing)
                    } else {
                        let greeting: Vec<Message> = vec![Message::Handshake(self.local_key)];
                        assert(message_views(greeting@) =~= seq![greeting@[0]@]);
                        Ok(Reply::Send(greeting))
                    }
                },
                _ => Err(BonkError::HandshakeIncomplete),
            },
            SessionState::Active => match message {
                Message::Bonk => Ok(Reply::Nothing),
                Message::Handshake(_) => Ok(Reply::Nothing),
                Message::PublishPeer(info) => {
                    directory.upsert(info);
                    Ok(Reply::Nothing)
                },
                Message::RequestPeers => Ok(Reply::Send(publish_directory(directory))),
                Message::Broadcast(signal) => {
                    let sender_known = directory.contains(&signal.sender);
                    let signature_ok = sender_known && signal.verify();
                    Ok(judge(sender_known, signature_ok, signal))
                },
            },
            SessionState::Closed => Ok(Reply::Nothing),
        }
    }

    /// Checks the length prefix of a frame that starts to arrive, before
    /// any buffer is made for its payload.
    ///
    /// Gives the number of payload bytes to read, or closes the session
    /// with `MalformedFrame` where the prefix declares more than `max`.
    pub fn accept_header(&mut self, header: &[u8; 4], max: u32) -> (r: Result<u32, BonkError>)
        ensures
            r == if be32_value(header@) <= max {
                Ok::<u32, BonkError>(be32_value(header@) as u32)
            } else {
                Err::<u32, BonkError>(BonkError::MalformedFrame)
            },
            r is Ok ==> final(self)@ == old(self)@,
            r is Err ==> final(self)@ == closed(old(self)@),
    {
        match payload_length(header, max) {
            Ok(length) => Ok(length),
            Err(e) => {
                self.close();
                Err(e)
            },
        }
    }

    /// The bytes to write for `reply`: the frames of the messages to send,
    /// or nothing where the reply sends none.
    ///
    /// Closes the session with `WriterFailure` where a message is too long
    /// for a frame.
    pub fn outgoing(&mut self, reply: &Reply) -> (r: Result<Vec<u8>, BonkError>)
        ensures
            match reply@ {
                ReplyView::Send(messages) => if all_frameable(messages) {
                    r is Ok && r->Ok_0@ == frames_of(messages)
                } else {
                    r == Err::<Vec<u8>, BonkError>(BonkError::WriterFailure)
                },
                _ => r is Ok && r->Ok_0@ == Seq::<u8>::empty(),
            },
            r is Ok ==> final(self)@ == old(self)@,
            r is Err ==> final(self)@ == closed(old(self)@),
    {
        match reply {
            Reply::Send(messages) => {
                match frames(messages.as_slice()) {
                    Ok(bytes) => Ok(bytes),
                    Err(e) => {
                        self.close();
                        Err(e)
                    },
                }
            },
            _ => Ok(Vec::new()),
        }
    }

    /// Processes the payload of one frame that arrived on this session.
    ///
    /// A closed session ignores the payload. On any other session a payload
    /// that is a message is processed as `receive` says; one that is none
    /// closes the session with a `Serialization` error and leaves the
    /// directory as it was.
    pub fn receive_frame(&mut self, directory: &mut PeerDirectory, payload: &[u8]) -> (r: Result<
        Reply,
        BonkError,
    >)
        ensures
            old(self)@.state == SessionState::Closed ==> {
                &&& r is Ok && r->Ok_0@ == ReplyView::Nothing
                &&& final(self)@ == old(self)@
                &&& final(directory)@ == old(directory)@
                &&& final(directory).listing() == old(directory).listing()
            },
            old(self)@.state != SessionState::Closed ==> match parse_message(payload@) {
                Some(message) => {
                    &&& final(self)@ == next_session(old(self)@, message)
                    &&& final(directory)@ == next_directory(old(self)@, old(directory)@, message)
                    &&& final(directory).listing() == next_listing(
                        old(self)@,
                        old(directory).listing(),
                        message,
                    )
                    &&& match answer(old(self)@, old(directory).listing(), old(directory)@, message) {
                        Ok(reply) => r is Ok && r->Ok_0@ == reply,
                        Err(e) => r == Err::<Reply, BonkError>(e),
                    }
                },
                None => {
                    &&& r == Err::<Reply, BonkError>(BonkError::Serialization)
                    &&& final(self)@ == closed(old(self)@)
                    &&& final(directory)@ == old(directory)@
                    &&& final(directory).listing() == old(directory).listing()
                },
            },
    {
        if self.is_closed() {
            return Ok(Reply::Nothing);
        }
        match Message::decode(payload) {
            Ok(message) => self.receive(directory, message),
            Err(e) => {
                self.close();
                Err(e)
            },
        }
    }
}

/// Decides what becomes of a signal, once it is known whether its sender is
/// in the directory and whether its signature holds.
pub fn judge(sender_known: bool, signature_ok: bool, signal: Signal) -> (reply: Reply)
    ensures
        reply@ == verdict(sender_known, signature_ok, signal@),
{
    if !sender_known {
        Reply::Rejected(Rejection::UnknownSender)
    } else if !signature_ok {
        Reply::Rejected(Rejection::BadSignature)
    } else {
        Reply::Deliver(signal)
    }
}

} // verus!
