use nebula_common::client::Client;
use nebula_common::error::BonkError;
use nebula_common::frame::DEFAULT_MAX_FRAME;
use nebula_common::message::{EncryptedData, Message, PeerInformation, Signal, Signature};
use nebula_common::relay::{RelayConfig, RelayServer};
use nebula_common::session::{judge, Rejection, Reply, Session, SessionState};
use nebula_common::stream::frames;

const LOCAL: [u8; 32] = [0xb0; 32];

fn public_key_of(secret: &[u8; 32]) -> [u8; 32] {
    ed25519_dalek::SigningKey::from_bytes(secret)
        .verifying_key()
        .to_bytes()
}

fn peer(key: [u8; 32], address: &str) -> PeerInformation {
    PeerInformation {
        public_key: key,
        address: address.to_string(),
    }
}

fn signal_from(secret: &[u8; 32]) -> Signal {
    Signal::seal(
        secret,
        [5; 16],
        LOCAL,
        EncryptedData {
            nonce: [6; 32],
            ciphertext: vec![1, 2, 3, 4],
        },
    )
}

fn active(server: &mut RelayServer, peer_key: [u8; 32]) -> Session {
    let mut session = Session::new(LOCAL);
    server
        .handle(&mut session, Message::Handshake(peer_key))
        .unwrap();
    session
}

#[test]
fn a_new_relay_has_the_default_parameters_and_no_peers() {
    let server = RelayServer::new();
    assert_eq!(server.directory.len(), 0);
    assert_eq!(server.config, RelayConfig::default());
    assert_eq!(server.config.listen_port, 23690);
    assert_eq!(server.config.onion_port, 80);
    assert_eq!(server.config.nickname, "nebula_chat");
    assert!(server.config.enable_pow);
    assert_eq!(server.config.max_frame_size, 1024 * 1024);
    assert_eq!(server.config.max_frame_size, DEFAULT_MAX_FRAME);
    assert_eq!(server.config.ttl, 128);
}

#[test]
fn a_relay_keeps_the_parameters_it_is_given() {
    let config = RelayConfig {
        listen_port: 4000,
        onion_port: 443,
        nickname: "other".to_string(),
        enable_pow: false,
        max_frame_size: 512,
        ttl: 64,
    };
    let server = RelayServer::with_config(config.clone());
    assert_eq!(server.config, config);
    assert_eq!(server.directory.len(), 0);
}

#[test]
fn a_fresh_session_awaits_the_handshake() {
    let session = Session::new(LOCAL);
    assert_eq!(session.state, SessionState::AwaitingHandshake);
    assert_eq!(session.local_key, LOCAL);
    assert_eq!(session.peer_key, None);
    assert!(!session.greeted);
    assert!(!session.is_closed());
}

#[test]
fn an_opened_session_sends_its_handshake_first_and_does_not_answer_the_peers() {
    let (mut session, first) = Session::open(LOCAL);
    assert_eq!(first, Message::Handshake(LOCAL));
    assert_eq!(session.state, SessionState::AwaitingHandshake);
    assert!(session.greeted);
    let mut client = Client::new();
    assert_eq!(
        client.handle(&mut session, Message::Handshake([0xb1; 32])),
        Ok(Reply::Nothing)
    );
    assert_eq!(session.state, SessionState::Active);
    assert_eq!(session.peer_key, Some([0xb1; 32]));
    assert_eq!(
        client.handle(&mut session, Message::PublishPeer(peer([7; 32], "seven"))),
        Ok(Reply::Nothing)
    );
    assert_eq!(client.known_peers.snapshot(), vec![peer([7; 32], "seven")]);
}

#[test]
fn an_opened_session_fails_on_anything_but_a_handshake() {
    let (mut session, _) = Session::open(LOCAL);
    let mut client = Client::new();
    assert_eq!(
        client.handle(&mut session, Message::PublishPeer(peer([7; 32], "seven"))),
        Err(BonkError::HandshakeIncomplete)
    );
    assert!(session.is_closed());
    assert_eq!(client.known_peers.len(), 0);
}

#[test]
fn a_handshake_activates_the_session_and_is_answered() {
    let mut server = RelayServer::new();
    let mut session = Session::new(LOCAL);
    let reply = server.handle(&mut session, Message::Handshake([0xa0; 32]));
    assert_eq!(reply, Ok(Reply::Send(vec![Message::Handshake(LOCAL)])));
    assert_eq!(session.state, SessionState::Active);
    assert_eq!(session.peer_key, Some([0xa0; 32]));
    assert_eq!(server.directory.len(), 0);
}

#[test]
fn request_peers_before_the_handshake_fails_and_changes_nothing() {
    let mut server = RelayServer::new();
    server.directory.upsert(peer([1; 32], "a"));
    let before = server.directory.snapshot();
    let mut session = Session::new(LOCAL);
    assert_eq!(
        server.handle(&mut session, Message::RequestPeers),
        Err(BonkError::HandshakeIncomplete)
    );
    assert_eq!(server.directory.snapshot(), before);
    assert_eq!(session.state, SessionState::Closed);
    assert_eq!(session.peer_key, None);
}

#[test]
fn every_other_message_before_the_handshake_fails_and_changes_nothing() {
    for message in [
        Message::Bonk,
        Message::RequestPeers,
        Message::PublishPeer(peer([9; 32], "evil")),
        Message::Broadcast(signal_from(&[3; 32])),
    ] {
        let mut server = RelayServer::new();
        let mut session = Session::new(LOCAL);
        assert_eq!(
            server.handle(&mut session, message),
            Err(BonkError::HandshakeIncomplete)
        );
        assert_eq!(server.directory.len(), 0);
        assert!(session.is_closed());
    }
}

#[test]
fn publish_peer_enters_the_peer() {
    let mut server = RelayServer::new();
    let mut session = active(&mut server, [0xa0; 32]);
    assert_eq!(
        server.handle(&mut session, Message::PublishPeer(peer([0xa0; 32], "10.0.0.1:9000"))),
        Ok(Reply::Nothing)
    );
    assert_eq!(
        server.directory.lookup(&[0xa0; 32]),
        Some(peer([0xa0; 32], "10.0.0.1:9000"))
    );
    assert_eq!(session.state, SessionState::Active);
}

#[test]
fn request_peers_is_answered_with_one_publish_peer_for_each_entry() {
    let mut server = RelayServer::new();
    let mut session = active(&mut server, [0xa0; 32]);
    assert_eq!(
        server.handle(&mut session, Message::RequestPeers),
        Ok(Reply::Send(vec![]))
    );
    server.directory.upsert(peer([2; 32], "two"));
    server.directory.upsert(peer([1; 32], "one"));
    server.directory.upsert(peer([2; 32], "two again"));
    assert_eq!(
        server.handle(&mut session, Message::RequestPeers),
        Ok(Reply::Send(vec![
            Message::PublishPeer(peer([2; 32], "two again")),
            Message::PublishPeer(peer([1; 32], "one")),
        ]))
    );
    assert_eq!(server.directory.len(), 2);
}

#[test]
fn bonk_and_a_second_handshake_change_nothing() {
    let mut server = RelayServer::new();
    let mut session = active(&mut server, [0xa0; 32]);
    let before = session.clone();
    assert_eq!(server.handle(&mut session, Message::Bonk), Ok(Reply::Nothing));
    assert_eq!(
        server.handle(&mut session, Message::Handshake([0xcc; 32])),
        Ok(Reply::Nothing)
    );
    assert_eq!(session, before);
    assert_eq!(server.directory.len(), 0);
}

#[test]
fn a_signal_of_an_unknown_sender_is_dropped() {
    let mut server = RelayServer::new();
    let mut session = active(&mut server, [0xa0; 32]);
    assert_eq!(
        server.handle(&mut session, Message::Broadcast(signal_from(&[3; 32]))),
        Ok(Reply::Rejected(Rejection::UnknownSender))
    );
    assert_eq!(session.state, SessionState::Active);
}

#[test]
fn a_signal_with_a_bad_signature_is_dropped() {
    let mut server = RelayServer::new();
    let mut session = active(&mut server, [0xa0; 32]);
    server
        .directory
        .upsert(peer(public_key_of(&[3; 32]), "known"));
    let mut signal = signal_from(&[3; 32]);
    signal.encrypted_data.ciphertext[0] ^= 1;
    assert_eq!(
        server.handle(&mut session, Message::Broadcast(signal)),
        Ok(Reply::Rejected(Rejection::BadSignature))
    );
    let mut signal = signal_from(&[3; 32]);
    signal.signature = Signature([1; 64]);
    assert_eq!(
        server.handle(&mut session, Message::Broadcast(signal)),
        Ok(Reply::Rejected(Rejection::BadSignature))
    );
    assert_eq!(session.state, SessionState::Active);
}

#[test]
fn a_signal_of_a_known_sender_with_a_good_signature_is_delivered() {
    let mut server = RelayServer::new();
    let mut session = active(&mut server, [0xa0; 32]);
    server
        .directory
        .upsert(peer(public_key_of(&[3; 32]), "known"));
    let signal = signal_from(&[3; 32]);
    assert_eq!(
        server.handle(&mut session, Message::Broadcast(signal.clone())),
        Ok(Reply::Deliver(signal))
    );
    assert_eq!(server.directory.len(), 1);
}

#[test]
fn the_verdict_on_a_signal_goes_by_sender_first() {
    let signal = signal_from(&[3; 32]);
    assert_eq!(
        judge(false, false, signal.clone()),
        Reply::Rejected(Rejection::UnknownSender)
    );
    assert_eq!(
        judge(false, true, signal.clone()),
        Reply::Rejected(Rejection::UnknownSender)
    );
    assert_eq!(
        judge(true, false, signal.clone()),
        Reply::Rejected(Rejection::BadSignature)
    );
    assert_eq!(judge(true, true, signal.clone()), Reply::Deliver(signal));
}

#[test]
fn a_closed_session_ignores_what_arrives() {
    let mut server = RelayServer::new();
    let mut session = active(&mut server, [0xa0; 32]);
    session.close();
    assert!(session.is_closed());
    assert_eq!(session.peer_key, Some([0xa0; 32]));
    for message in [
        Message::Bonk,
        Message::Handshake([1; 32]),
        Message::RequestPeers,
        Message::PublishPeer(peer([9; 32], "late")),
    ] {
        assert_eq!(server.handle(&mut session, message), Ok(Reply::Nothing));
    }
    assert_eq!(server.handle_frame(&mut session, &[0xff]), Ok(Reply::Nothing));
    assert!(session.is_closed());
    assert_eq!(server.directory.len(), 0);
}

#[test]
fn a_payload_that_is_no_message_closes_the_session() {
    let mut server = RelayServer::new();
    let mut session = active(&mut server, [0xa0; 32]);
    assert_eq!(
        server.handle_frame(&mut session, &[0xff, 0x00]),
        Err(BonkError::Serialization)
    );
    assert!(session.is_closed());
    assert_eq!(server.directory.len(), 0);
}

#[test]
fn a_payload_that_is_a_message_is_handled() {
    let mut server = RelayServer::new();
    let mut session = Session::new(LOCAL);
    let hello = Message::Handshake([0xa0; 32]).encode();
    assert_eq!(
        server.handle_frame(&mut session, &hello),
        Ok(Reply::Send(vec![Message::Handshake(LOCAL)]))
    );
    let publish = Message::PublishPeer(peer([0xa0; 32], "10.0.0.1:9000")).encode();
    assert_eq!(server.handle_frame(&mut session, &publish), Ok(Reply::Nothing));
    assert!(server.directory.contains(&[0xa0; 32]));
    let mut early = Session::new(LOCAL);
    assert_eq!(
        server.handle_frame(&mut early, &Message::RequestPeers.encode()),
        Err(BonkError::HandshakeIncomplete)
    );
    assert!(early.is_closed());
}

#[test]
fn messages_are_read_off_a_stream_frame_by_frame() {
    let mut stream = Vec::new();
    Message::Bonk.write_framed(&mut stream).unwrap();
    assert_eq!(stream, vec![0, 0, 0, 5, 0x64, b'B', b'o', b'n', b'k']);
    Message::RequestPeers.write_framed(&mut stream).unwrap();
    let (first, used) = Message::read_framed(&stream, 64).unwrap();
    assert_eq!(first, Message::Bonk);
    assert_eq!(used, 9);
    let (second, more) = Message::read_framed(&stream[used..], 64).unwrap();
    assert_eq!(second, Message::RequestPeers);
    assert_eq!(used + more, stream.len());
    assert_eq!(
        Message::read_framed(&stream[used + more..], 64),
        Err(BonkError::MalformedFrame)
    );
}

#[test]
fn a_frame_above_the_limit_is_malformed_and_a_bad_payload_is_no_message() {
    let mut stream = Vec::new();
    Message::RequestPeers.write_framed(&mut stream).unwrap();
    assert_eq!(
        Message::read_framed(&stream, 12),
        Err(BonkError::MalformedFrame)
    );
    assert_eq!(
        Message::read_framed(&stream, 13),
        Ok((Message::RequestPeers, 17))
    );
    assert_eq!(
        Message::read_framed(&[0, 0, 0, 1, 0xff], 64),
        Err(BonkError::Serialization)
    );
}

// One direction of an in-memory duplex channel.
struct Pipe {
    bytes: Vec<u8>,
    read: usize,
}

impl Pipe {
    fn new() -> Pipe {
        Pipe {
            bytes: Vec::new(),
            read: 0,
        }
    }

    fn send(&mut self, message: &Message) {
        message.write_framed(&mut self.bytes).unwrap();
    }

    fn receive(&mut self, max: u32) -> Option<Message> {
        if self.read == self.bytes.len() {
            return None;
        }
        let (message, used) = Message::read_framed(&self.bytes[self.read..], max).unwrap();
        self.read += used;
        Some(message)
    }
}

// Lets the relay work off everything that waits on the connection.
fn serve(server: &mut RelayServer, session: &mut Session, inbound: &mut Pipe, outbound: &mut Pipe) {
    let max = server.config.max_frame_size;
    while let Some(message) = inbound.receive(max) {
        if let Ok(Reply::Send(messages)) = server.handle(session, message) {
            for message in &messages {
                outbound.send(message);
            }
        }
    }
}

// Lets a client work off everything that waits on the connection.
fn listen(client: &mut Client, session: &mut Session, inbound: &mut Pipe, outbound: &mut Pipe) {
    while let Some(message) = inbound.receive(DEFAULT_MAX_FRAME) {
        if let Ok(Reply::Send(messages)) = client.handle(session, message) {
            for message in &messages {
                outbound.send(message);
            }
        }
    }
}

#[test]
fn two_sessions_shake_hands_publish_and_the_relay_goes_on() {
    let pk_a = public_key_of(&[0xa1; 32]);
    let pk_b = public_key_of(&[0xb1; 32]);
    let mut relay = RelayServer::new();
    let mut client_a = Client::new();

    // The connection between A and the relay B.
    let mut a_to_b = Pipe::new();
    let mut b_to_a = Pipe::new();
    let mut session_b = Session::new(pk_b);
    let (mut session_a, hello) = Session::open(pk_a);

    // A sends its handshake, B replies with its own.
    a_to_b.send(&hello);
    serve(&mut relay, &mut session_b, &mut a_to_b, &mut b_to_a);
    assert_eq!(session_b.state, SessionState::Active);
    assert_eq!(session_b.peer_key, Some(pk_a));
    assert_eq!(b_to_a.bytes, {
        let mut expected = Vec::new();
        Message::Handshake(pk_b).write_framed(&mut expected).unwrap();
        expected
    });
    listen(&mut client_a, &mut session_a, &mut b_to_a, &mut a_to_b);
    assert_eq!(session_a.state, SessionState::Active);
    assert_eq!(session_a.peer_key, Some(pk_b));

    // A publishes itself.
    a_to_b.send(&Message::PublishPeer(peer(pk_a, "10.0.0.1:9000")));
    serve(&mut relay, &mut session_b, &mut a_to_b, &mut b_to_a);
    assert_eq!(b_to_a.receive(DEFAULT_MAX_FRAME), None);
    assert_eq!(
        relay.directory.lookup(&pk_a),
        Some(peer(pk_a, "10.0.0.1:9000"))
    );
    assert_eq!(relay.directory.len(), 1);

    // A disconnects.
    session_a.close();
    session_b.close();
    assert!(session_b.is_closed());

    // An unrelated connection C is served as if nothing had happened.
    let pk_c = public_key_of(&[0xc1; 32]);
    let mut client_c = Client::new();
    let mut c_to_b = Pipe::new();
    let mut b_to_c = Pipe::new();
    let mut session_b2 = Session::new(pk_b);
    let (mut session_c, hello) = Session::open(pk_c);
    c_to_b.send(&hello);
    c_to_b.send(&Message::RequestPeers);
    serve(&mut relay, &mut session_b2, &mut c_to_b, &mut b_to_c);
    listen(&mut client_c, &mut session_c, &mut b_to_c, &mut c_to_b);
    assert_eq!(session_b2.state, SessionState::Active);
    assert_eq!(session_b2.peer_key, Some(pk_c));
    assert_eq!(session_c.state, SessionState::Active);
    assert_eq!(session_c.peer_key, Some(pk_b));
    assert_eq!(
        client_c.known_peers.snapshot(),
        vec![peer(pk_a, "10.0.0.1:9000")]
    );
    assert_eq!(c_to_b.receive(DEFAULT_MAX_FRAME), None);
    assert_eq!(relay.directory.len(), 1);
}

#[test]
fn a_failed_session_leaves_the_others_alone() {
    let mut relay = RelayServer::new();
    let mut good = active(&mut relay, [1; 32]);
    let mut bad = Session::new(LOCAL);
    assert_eq!(
        relay.handle(&mut bad, Message::PublishPeer(peer([9; 32], "x"))),
        Err(BonkError::HandshakeIncomplete)
    );
    assert!(bad.is_closed());
    assert_eq!(
        relay.handle(&mut good, Message::PublishPeer(peer([1; 32], "y"))),
        Ok(Reply::Nothing)
    );
    assert_eq!(relay.directory.snapshot(), vec![peer([1; 32], "y")]);
    assert_eq!(good.state, SessionState::Active);
}

#[test]
fn a_header_within_the_limit_gives_the_length_to_read() {
    let server = RelayServer::new();
    let mut session = Session::new(LOCAL);
    assert_eq!(server.accept_header(&mut session, &[0, 0, 1, 2]), Ok(258));
    assert_eq!(
        server.accept_header(&mut session, &[0, 0x10, 0, 0]),
        Ok(1024 * 1024)
    );
    assert_eq!(session.state, SessionState::AwaitingHandshake);
}

#[test]
fn a_header_above_the_limit_closes_the_session() {
    let mut server = RelayServer::new();
    let mut session = active(&mut server, [0xa0; 32]);
    assert_eq!(
        server.accept_header(&mut session, &[0, 0x10, 0, 1]),
        Err(BonkError::MalformedFrame)
    );
    assert!(session.is_closed());
    assert_eq!(session.peer_key, Some([0xa0; 32]));

    let small = RelayServer::with_config(RelayConfig {
        max_frame_size: 8,
        ..RelayConfig::default()
    });
    let mut session = Session::new(LOCAL);
    assert_eq!(small.accept_header(&mut session, &[0, 0, 0, 8]), Ok(8));
    assert_eq!(
        small.accept_header(&mut session, &[0, 0, 0, 9]),
        Err(BonkError::MalformedFrame)
    );
    assert!(session.is_closed());
}

#[test]
fn the_bytes_of_a_reply_are_the_frames_of_its_messages() {
    let server = RelayServer::new();
    let mut session = Session::new(LOCAL);
    assert_eq!(session.outgoing(&Reply::Nothing), Ok(vec![]));
    assert_eq!(
        session.outgoing(&Reply::Rejected(Rejection::BadSignature)),
        Ok(vec![])
    );
    assert_eq!(
        session.outgoing(&Reply::Deliver(signal_from(&[3; 32]))),
        Ok(vec![])
    );
    assert_eq!(session.outgoing(&Reply::Send(vec![])), Ok(vec![]));
    let reply = Reply::Send(vec![Message::Bonk, Message::RequestPeers]);
    let mut expected = vec![0, 0, 0, 5, 0x64];
    expected.extend_from_slice(b"Bonk");
    expected.extend_from_slice(&[0, 0, 0, 13, 0x6c]);
    expected.extend_from_slice(b"RequestPeers");
    assert_eq!(session.outgoing(&reply), Ok(expected.clone()));
    assert_eq!(frames(&[Message::Bonk, Message::RequestPeers]), Ok(expected));
    assert_eq!(frames(&[]), Ok(vec![]));
    assert_eq!(session.state, SessionState::AwaitingHandshake);
}

#[test]
fn a_whole_exchange_goes_through_headers_payloads_and_replies() {
    let mut server = RelayServer::new();
    let mut session = Session::new(LOCAL);
    let mut inbound = Vec::new();
    Message::Handshake([0xa0; 32]).write_framed(&mut inbound).unwrap();
    Message::PublishPeer(peer([0xa0; 32], "10.0.0.1:9000"))
        .write_framed(&mut inbound)
        .unwrap();
    Message::RequestPeers.write_framed(&mut inbound).unwrap();

    let mut outbound = Vec::new();
    let mut at = 0;
    while at < inbound.len() {
        let header = [inbound[at], inbound[at + 1], inbound[at + 2], inbound[at + 3]];
        let length = server.accept_header(&mut session, &header).unwrap() as usize;
        let payload = &inbound[at + 4..at + 4 + length];
        let reply = server.handle_frame(&mut session, payload).unwrap();
        outbound.extend(session.outgoing(&reply).unwrap());
        at += 4 + length;
    }

    let (first, used) = Message::read_framed(&outbound, DEFAULT_MAX_FRAME).unwrap();
    assert_eq!(first, Message::Handshake(LOCAL));
    let (second, more) = Message::read_framed(&outbound[used..], DEFAULT_MAX_FRAME).unwrap();
    assert_eq!(second, Message::PublishPeer(peer([0xa0; 32], "10.0.0.1:9000")));
    assert_eq!(used + more, outbound.len());
}
