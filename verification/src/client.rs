//! The client's side of the protocol: the peers it has heard of.

use crate::directory::PeerDirectory;
use crate::error::BonkError;
use crate::message::{Message, PeerInformation, PeerInformationView};
use crate::session::{answer, next_directory, next_listing, next_session, Reply, Session};
use vstd::prelude::*;

verus! {

/// A Bonk client with the peers it knows.
pub struct Client {
    /// The peers that relays have published to this client.
    pub known_peers: PeerDirectory,
}

impl Client {
    /// A client that knows no peer yet.
    pub fn new() -> (client: Client)
        ensures
            client.known_peers@ == Map::<Seq<u8>, PeerInformationView>::empty(),
            client.known_peers.listing() == Seq::<PeerInformationView>::empty(),
    {
        Client { known_peers: PeerDirectory::new() }
    }

    /// Processes one message that arrived on `session`, against the peers
    /// that this client knows, as `Session::receive` says.
    pub fn handle(&mut self, session: &mut Session, message: Message) -> (r: Result<
        Reply,
        BonkError,
    >)
        ensures
            final(session)@ == next_session(old(session)@, message@),
            final(self).known_peers@ == next_directory(
                old(session)@,
                old(self).known_peers@,
                message@,
            ),
            final(self).known_peers.listing() == next_listing(
                old(session)@,
                old(self).known_peers.listing(),
                message@,
            ),
            match answer(
                old(session)@,
                old(self).known_peers.listing(),
                old(self).known_peers@,
                message@,
            ) {
                Ok(reply) => r is Ok && r->Ok_0@ == reply,
                Err(e) => r == Err::<Reply, BonkError>(e),
            },
    {
        session.receive(&mut self.known_peers, message)
    }

    /// Records a peer that a relay published, in place of what was known
    /// under the same key.
    pub fn remember(&mut self, info: PeerInformation)
        ensures
            final(self).known_peers@ == old(self).known_peers@.insert(info@.public_key, info@),
    {
        self.known_peers.upsert(info);
    }
}

} // verus!
