//! The relay: the directory that all sessions share, and what each message
//! does to it.

use crate::codec::parse_message;
use crate::directory::PeerDirectory;
use crate::endian::be32_value;
use crate::error::BonkError;
use crate::frame::DEFAULT_MAX_FRAME;
use crate::message::{Message, PeerInformationView};
use crate::session::{
    answer, closed, next_directory, next_listing, next_session, Reply, ReplyView, Session,
    SessionState,
};
use vstd::prelude::*;

verus! {

/// The port on which a relay listens unless configured otherwise.
pub const DEFAULT_LISTEN_PORT: u16 = 23690;

/// The port of the onion service that is forwarded to the relay.
pub const DEFAULT_ONION_PORT: u16 = 80;

/// The time-to-live set on the listening socket.
pub const DEFAULT_TTL: u32 = 128;

/// The parameters of a relay.
#[derive(Debug, Clone, PartialEq, Eq)]
pub struct RelayConfig {
    /// Local port on which the relay listens.
    pub listen_port: u16,
    /// Port of the onion service that is forwarded to `listen_port`.
    pub onion_port: u16,
    /// Nickname under which the onion service is published.
    pub nickname: String,
    /// Whether peers must solve a puzzle before a rendezvous completes.
    pub enable_pow: bool,
    /// Largest payload that a session accepts in one frame.
    pub max_frame_size: u32,
    /// Time-to-live of the listening socket.
    pub ttl: u32,
}

impl Default for RelayConfig {
    fn default() -> (config: RelayConfig)
        ensures
            config.listen_port == DEFAULT_LISTEN_PORT,
            config.onion_port == DEFAULT_ONION_PORT,
            config.nickname@ == "nebula_chat"@,
            config.enable_pow,
            config.max_frame_size == DEFAULT_MAX_FRAME,
            config.ttl == DEFAULT_TTL,
    {
        RelayConfig {
            listen_port: DEFAULT_LISTEN_PORT,
            onion_port: DEFAULT_ONION_PORT,
            nickname: "nebula_chat".to_owned(),
            enable_pow: true,
            max_frame_size: DEFAULT_MAX_FRAME,
            ttl: DEFAULT_TTL,
        }
    }
}

/// The relay: it owns the peer directory for as long as it lives, and every
/// session of its connections works on that one directory.
pub struct RelayServer {
    /// The peers that the relay knows.
    pub directory: PeerDirectory,
    /// The parameters that the relay runs with.
    pub config: RelayConfig,
}

impl RelayServer {
    /// A relay with the default parameters and an empty directory.
    pub fn new() -> (server: RelayServer)
        ensures
            server.directory@ == Map::<Seq<u8>, PeerInformationView>::empty(),
            server.directory.listing() == Seq::<PeerInformationView>::empty(),
            server.config.listen_port == DEFAULT_LISTEN_PORT,
            server.config.onion_port == DEFAULT_ONION_PORT,
            server.config.nickname@ == "nebula_chat"@,
            server.config.enable_pow,
            server.config.max_frame_size == DEFAULT_MAX_FRAME,
            server.config.ttl == DEFAULT_TTL,
    {
        RelayServer { directory: PeerDirectory::new(), config: RelayConfig::default() }
    }

    /// A relay with the given parameters and an empty directory.
    pub fn with_config(config: RelayConfig) -> (server: RelayServer)
        ensures
            server.directory@ == Map::<Seq<u8>, PeerInformationView>::empty(),
            server.directory.listing() == Seq::<PeerInformationView>::empty(),
            server.config == config,
    {
        RelayServer { directory: PeerDirectory::new(), config }
    }

    /// Processes one message that arrived on `session`.
    ///
    /// The session moves as `next_session` says, the directory changes as
    /// `next_directory` says, and the result is what `answer` gives on the
    /// session and the directory as they stood before. A failure concerns
    /// this session alone.
    pub fn handle(&mut self, session: &mut Session, message: Message) -> (r: Result<
        Reply,
        BonkError,
    >)
        ensures
            final(session)@ == next_session(old(session)@, message@),
            final(self).directory@ == next_directory(
                old(session)@,
                old(self).directory@,
                message@,
            ),
            final(self).directory.listing() == next_listing(
                old(session)@,
                old(self).directory.listing(),
                message@,
            ),
            final(self).config == old(self).config,
            match answer(
                old(session)@,
                old(self).directory.listing(),
                old(self).directory@,
                message@,
            ) {
                Ok(reply) => r is Ok && r->Ok_0@ == reply,
                Err(e) => r == Err::<Reply, BonkError>(e),
            },
    {
        session.receive(&mut self.directory, message)
    }

    /// Checks the length prefix of a frame that starts to arrive on
    /// `session` against the relay's limit, as `Session::accept_header`
    /// says.
    pub fn accept_header(&self, session: &mut Session, header: &[u8; 4]) -> (r: Result<
        u32,
        BonkError,
    >)
        ensures
            r == if be32_value(header@) <= self.config.max_frame_size {
                Ok::<u32, BonkError>(be32_value(header@) as u32)
            } else {
                Err::<u32, BonkError>(BonkError::MalformedFrame)
            },
            r is Ok ==> final(session)@ == old(session)@,
            r is Err ==> final(session)@ == closed(old(session)@),
    {
        session.accept_header(header, self.config.max_frame_size)
    }

    /// Processes the payload of one frame that arrived on `session`.
    ///
    /// A closed session ignores the payload. On any other session a payload
    /// that is a message is handled as `handle` says; one that is none
    /// closes the session with a `Serialization` error and leaves the
    /// directory as it was.
    pub fn handle_frame(&mut self, session: &mut Session, payload: &[u8]) -> (r: Result<
        Reply,
        BonkError,
    >)
        ensures
            final(self).config == old(self).config,
            old(session)@.state == SessionState::Closed ==> {
                &&& r is Ok && r->Ok_0@ == ReplyView::Nothing
                &&& final(session)@ == old(session)@
                &&& final(self).directory@ == old(self).directory@
                &&& final(self).directory.listing() == old(self).directory.listing()
            },
            old(session)@.state != SessionState::Closed ==> match parse_message(payload@) {
                Some(message) => {
                    &&& final(session)@ == next_session(old(session)@, message)
                    &&& final(self).directory@ == next_directory(
                        old(session)@,
                        old(self).directory@,
                        message,
                    )
                    &&& final(self).directory.listing() == next_listing(
                        old(session)@,
                        old(self).directory.listing(),
                        message,
                    )
                    &&& match answer(
                        old(session)@,
                        old(self).directory.listing(),
                        old(self).directory@,
                        message,
                    ) {
                        Ok(reply) => r is Ok && r->Ok_0@ == reply,
                        Err(e) => r == Err::<Reply, BonkError>(e),
                    }
                },
                None => {
                    &&& r == Err::<Reply, BonkError>(BonkError::Serialization)
                    &&& final(session)@ == closed(old(session)@)
                    &&& final(self).directory@ == old(self).directory@
                    &&& final(self).directory.listing() == old(self).directory.listing()
                },
            },
    {
        session.receive_frame(&mut self.directory, payload)
    }
}

} // verus!
