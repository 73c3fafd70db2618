use ciborium::Value;
use nebula_common::error::BonkError;
use nebula_common::item;
use nebula_common::message::{
    EncryptedData, InvalidLength, Message, PeerInformation, Signal, Signature,
};
use nebula_common::wire::{self, Head};

fn key(seed: u8) -> [u8; 32] {
    let mut k = [0u8; 32];
    for (i, b) in k.iter_mut().enumerate() {
        *b = seed.wrapping_add((i as u8).wrapping_mul(9));
    }
    k
}

fn sample_peer() -> PeerInformation {
    PeerInformation {
        public_key: key(3),
        address: String::from("10.0.0.1:9000"),
    }
}

fn sample_signal(ciphertext: Vec<u8>) -> Signal {
    let mut signature = [0u8; 64];
    for (i, b) in signature.iter_mut().enumerate() {
        *b = 255 - i as u8;
    }
    let mut signal_id = [0u8; 16];
    for (i, b) in signal_id.iter_mut().enumerate() {
        *b = 20 + i as u8;
    }
    Signal {
        signal_id,
        sender: key(1),
        receiver: key(200),
        encrypted_data: EncryptedData {
            nonce: key(77),
            ciphertext,
        },
        signature: Signature(signature),
    }
}

fn all_samples() -> Vec<Message> {
    vec![
        Message::Bonk,
        Message::RequestPeers,
        Message::Handshake(key(0)),
        Message::Handshake([255u8; 32]),
        Message::PublishPeer(sample_peer()),
        Message::PublishPeer(PeerInformation {
            public_key: [0u8; 32],
            address: String::new(),
        }),
        Message::PublishPeer(PeerInformation {
            public_key: key(9),
            address: String::from("zürich-ünïcödé-\u{1F980}.onion:80"),
        }),
        Message::PublishPeer(PeerInformation {
            public_key: key(9),
            address: "a".repeat(300),
        }),
        Message::Broadcast(sample_signal(vec![])),
        Message::Broadcast(sample_signal(vec![1, 2, 3, 250, 24, 23])),
        Message::Broadcast(sample_signal((0..70_000).map(|i| (i % 256) as u8).collect())),
    ]
}

fn numbers(bytes: &[u8]) -> Value {
    Value::Array(bytes.iter().map(|b| Value::from(*b)).collect())
}

fn text(s: &str) -> Value {
    Value::Text(s.to_string())
}

fn tagged(name: &str, content: Value) -> Value {
    Value::Map(vec![(text(name), content)])
}

fn peer_value(info: &PeerInformation) -> Value {
    Value::Map(vec![
        (text("public_key"), numbers(&info.public_key)),
        (text("address"), text(&info.address)),
    ])
}

fn signal_value(signal: &Signal) -> Value {
    Value::Map(vec![
        (text("signal_id"), numbers(&signal.signal_id)),
        (text("sender"), numbers(&signal.sender)),
        (text("receiver"), numbers(&signal.receiver)),
        (
            text("encrypted_data"),
            Value::Map(vec![
                (text("nonce"), numbers(&signal.encrypted_data.nonce)),
                (text("ciphertext"), numbers(&signal.encrypted_data.ciphertext)),
            ]),
        ),
        (text("signature"), Value::Bytes(signal.signature.0.to_vec())),
    ])
}

fn message_value(message: &Message) -> Value {
    match message {
        Message::Bonk => text("Bonk"),
        Message::RequestPeers => text("RequestPeers"),
        Message::Handshake(k) => tagged("Handshake", numbers(k)),
        Message::PublishPeer(info) => tagged("PublishPeer", peer_value(info)),
        Message::Broadcast(signal) => tagged("Broadcast", signal_value(signal)),
    }
}

fn by_ciborium(value: &Value) -> Vec<u8> {
    let mut out = Vec::new();
    ciborium::into_writer(value, &mut out).unwrap();
    out
}

#[test]
fn every_message_survives_the_round_trip() {
    for message in all_samples() {
        let bytes = message.encode();
        assert_eq!(Message::decode(&bytes), Ok(message));
    }
}

#[test]
fn bonk_is_the_text_of_its_name() {
    assert_eq!(Message::Bonk.encode(), vec![0x64, b'B', b'o', b'n', b'k']);
}

#[test]
fn request_peers_is_the_text_of_its_name() {
    let mut expected = vec![0x6c];
    expected.extend_from_slice(b"RequestPeers");
    assert_eq!(Message::RequestPeers.encode(), expected);
}

#[test]
fn handshake_is_a_map_from_its_name_to_an_array_of_numbers() {
    let mut k = [0u8; 32];
    k[0] = 23;
    k[1] = 24;
    k[2] = 255;
    let mut expected = vec![0xa1, 0x69];
    expected.extend_from_slice(b"Handshake");
    expected.extend_from_slice(&[0x98, 0x20, 0x17, 0x18, 0x18, 0x18, 0xff]);
    expected.extend_from_slice(&[0u8; 29]);
    assert_eq!(Message::Handshake(k).encode(), expected);
}

#[test]
fn publish_peer_has_its_fields_in_order() {
    let info = PeerInformation {
        public_key: [1u8; 32],
        address: String::from("ab"),
    };
    let mut expected = vec![0xa1, 0x6b];
    expected.extend_from_slice(b"PublishPeer");
    expected.push(0xa2);
    expected.push(0x6a);
    expected.extend_from_slice(b"public_key");
    expected.extend_from_slice(&[0x98, 0x20]);
    expected.extend_from_slice(&[1u8; 32]);
    expected.push(0x67);
    expected.extend_from_slice(b"address");
    expected.extend_from_slice(&[0x62, b'a', b'b']);
    assert_eq!(Message::PublishPeer(info).encode(), expected);
}

#[test]
fn encoding_is_what_ciborium_writes_for_the_same_tree() {
    for message in all_samples() {
        assert_eq!(message.encode(), by_ciborium(&message_value(&message)));
    }
}

#[test]
fn ciborium_reads_the_encoding_as_the_same_tree() {
    for message in all_samples() {
        let bytes = message.encode();
        let value: Value = ciborium::from_reader(&bytes[..]).unwrap();
        assert_eq!(value, message_value(&message));
    }
}

#[test]
fn what_ciborium_writes_is_decoded() {
    for message in all_samples() {
        let bytes = by_ciborium(&message_value(&message));
        assert_eq!(Message::decode(&bytes), Ok(message));
    }
}

#[test]
fn trailing_bytes_are_refused() {
    for message in all_samples() {
        let mut bytes = message.encode();
        bytes.push(0);
        assert_eq!(Message::decode(&bytes), Err(BonkError::Serialization));
    }
}

#[test]
fn every_proper_prefix_is_refused() {
    for message in [
        Message::Bonk,
        Message::RequestPeers,
        Message::Handshake(key(5)),
        Message::PublishPeer(sample_peer()),
        Message::Broadcast(sample_signal(vec![9, 8, 7])),
    ] {
        let bytes = message.encode();
        for cut in 0..bytes.len() {
            assert_eq!(
                Message::decode(&bytes[..cut]),
                Err(BonkError::Serialization)
            );
        }
    }
}

#[test]
fn every_flipped_byte_gives_another_message_or_none() {
    for message in [
        Message::Bonk,
        Message::Handshake(key(5)),
        Message::PublishPeer(sample_peer()),
        Message::Broadcast(sample_signal(vec![9, 8, 7])),
    ] {
        let bytes = message.encode();
        for at in 0..bytes.len() {
            let mut changed = bytes.clone();
            changed[at] ^= 0x01;
            match Message::decode(&changed) {
                Ok(other) => {
                    assert_ne!(other, message);
                    assert_eq!(other.encode(), changed);
                }
                Err(e) => assert_eq!(e, BonkError::Serialization),
            }
        }
    }
}

#[test]
fn unknown_names_are_refused() {
    assert_eq!(
        Message::decode(&by_ciborium(&text("Bonk!"))),
        Err(BonkError::Serialization)
    );
    assert_eq!(
        Message::decode(&by_ciborium(&text(""))),
        Err(BonkError::Serialization)
    );
    assert_eq!(
        Message::decode(&by_ciborium(&tagged("Handshakes", numbers(&key(1))))),
        Err(BonkError::Serialization)
    );
    assert_eq!(
        Message::decode(&by_ciborium(&tagged("Bonk", numbers(&key(1))))),
        Err(BonkError::Serialization)
    );
}

#[test]
fn keys_of_the_wrong_length_are_refused() {
    assert_eq!(
        Message::decode(&by_ciborium(&tagged("Handshake", numbers(&[1u8; 31])))),
        Err(BonkError::Serialization)
    );
    assert_eq!(
        Message::decode(&by_ciborium(&tagged("Handshake", numbers(&[1u8; 33])))),
        Err(BonkError::Serialization)
    );
}

#[test]
fn numbers_above_a_byte_are_refused() {
    let mut items: Vec<Value> = (0..31).map(|_| Value::from(0u8)).collect();
    items.push(Value::from(256u16));
    assert_eq!(
        Message::decode(&by_ciborium(&tagged("Handshake", Value::Array(items)))),
        Err(BonkError::Serialization)
    );
}

#[test]
fn a_signature_of_the_wrong_length_is_refused() {
    let signal = sample_signal(vec![1]);
    let mut value = signal_value(&signal);
    if let Value::Map(fields) = &mut value {
        fields[4].1 = Value::Bytes(vec![0u8; 63]);
    }
    assert_eq!(
        Message::decode(&by_ciborium(&tagged("Broadcast", value))),
        Err(BonkError::Serialization)
    );
}

#[test]
fn fields_out_of_order_are_refused() {
    let info = sample_peer();
    let swapped = Value::Map(vec![
        (text("address"), text(&info.address)),
        (text("public_key"), numbers(&info.public_key)),
    ]);
    assert_eq!(
        Message::decode(&by_ciborium(&tagged("PublishPeer", swapped))),
        Err(BonkError::Serialization)
    );
}

#[test]
fn a_longer_form_of_a_head_is_refused() {
    // "Bonk" with its length in one extra byte: 0x78 0x04 in place of 0x64.
    assert_eq!(
        Message::decode(&[0x78, 0x04, b'B', b'o', b'n', b'k']),
        Err(BonkError::Serialization)
    );
}

#[test]
fn an_indefinite_length_is_refused() {
    // An indefinite-length text made of one chunk "Bonk".
    assert_eq!(
        Message::decode(&[0x7f, 0x64, b'B', b'o', b'n', b'k', 0xff]),
        Err(BonkError::Serialization)
    );
}

#[test]
fn an_address_that_is_not_utf8_is_refused() {
    let info = PeerInformation {
        public_key: key(1),
        address: String::from("ab"),
    };
    let mut bytes = Message::PublishPeer(info).encode();
    let last = bytes.len() - 1;
    bytes[last] = 0xff;
    assert_eq!(Message::decode(&bytes), Err(BonkError::Serialization));
}

#[test]
fn empty_input_is_refused() {
    assert_eq!(Message::decode(&[]), Err(BonkError::Serialization));
}

#[test]
fn signature_reads_exactly_64_bytes() {
    let raw: Vec<u8> = (0..64).collect();
    let signature = Signature::from_slice(&raw).unwrap();
    assert_eq!(signature.0.to_vec(), raw);
    assert_eq!(signature.to_vec(), raw);
    assert_eq!(
        Signature::from_slice(&raw[..63]),
        Err(InvalidLength {
            expected: 64,
            found: 63
        })
    );
    assert_eq!(
        Signature::from_slice(&[0u8; 65]),
        Err(InvalidLength {
            expected: 64,
            found: 65
        })
    );
    assert_eq!(
        Signature::from_slice(&[]),
        Err(InvalidLength {
            expected: 64,
            found: 0
        })
    );
}

#[test]
fn heads_are_read_in_the_shortest_form() {
    let cases: Vec<(Head, Vec<u8>)> = vec![
        (Head::Positive(0), vec![0x00]),
        (Head::Positive(23), vec![0x17]),
        (Head::Positive(24), vec![0x18, 0x18]),
        (Head::Positive(255), vec![0x18, 0xff]),
        (Head::Positive(256), vec![0x19, 0x01, 0x00]),
        (Head::Positive(65535), vec![0x19, 0xff, 0xff]),
        (Head::Positive(65536), vec![0x1a, 0x00, 0x01, 0x00, 0x00]),
        (Head::Positive(0xffff_ffff), vec![0x1a, 0xff, 0xff, 0xff, 0xff]),
        (
            Head::Positive(0x1_0000_0000),
            vec![0x1b, 0, 0, 0, 1, 0, 0, 0, 0],
        ),
        (
            Head::Positive(u64::MAX),
            vec![0x1b, 255, 255, 255, 255, 255, 255, 255, 255],
        ),
        (Head::Bytes(64), vec![0x58, 0x40]),
        (Head::Text(4), vec![0x64]),
        (Head::Array(32), vec![0x98, 0x20]),
        (Head::Pairs(5), vec![0xa5]),
        (Head::Pairs(1000), vec![0xb9, 0x03, 0xe8]),
    ];
    for (head, bytes) in cases {
        let mut out = vec![0xee];
        out.extend_from_slice(&bytes);
        assert_eq!(wire::head_len(head), bytes.len());
        out.push(0x55);
        assert_eq!(wire::read_head(&out, 1), Some((head, 1 + bytes.len())));
    }
}

#[test]
fn heads_that_messages_never_use_are_not_read() {
    // a negative number, a tag, a simple value, a float, a break
    for bytes in [
        vec![0x20u8],
        vec![0xc1, 0x00],
        vec![0xf5],
        vec![0xf9, 0x3c, 0x00],
        vec![0xff],
        vec![0x5f],
        vec![0x9f],
        vec![0x1c],
        vec![0x1f],
        vec![0x18],
        vec![0x19, 0x01],
        vec![0x1b, 0, 0, 0, 1, 0, 0, 0],
        vec![],
    ] {
        assert_eq!(wire::read_head(&bytes, 0), None);
    }
    // a number that stands in a longer form than it needs
    assert_eq!(wire::read_head(&[0x18, 0x05], 0), None);
    assert_eq!(wire::read_head(&[0x19, 0x00, 0xff], 0), None);
    assert_eq!(wire::read_head(&[0x1a, 0, 0, 0xff, 0xff], 0), None);
    assert_eq!(wire::read_head(&[0x1b, 0, 0, 0, 0, 0xff, 0xff, 0xff, 0xff], 0), None);
}

#[test]
fn text_items_are_read_back() {
    let mut out = Vec::new();
    item::write_text(&mut out, "héllo");
    assert_eq!(out, vec![0x66, b'h', 0xc3, 0xa9, b'l', b'l', b'o']);
    out.push(1);
    assert_eq!(item::read_text(&out, 0), Some((String::from("héllo"), 7)));
    assert_eq!(item::expect_key(&out, 0, "héllo"), Some(7));
    assert_eq!(item::expect_key(&out, 0, "héll"), None);
    assert_eq!(item::expect_key(&out, 0, "hello!"), None);
    assert_eq!(item::read_text(&out[..6], 0), None);
    assert_eq!(item::read_text(&[0x62, 0xc3, 0x28], 0), None);
}

#[test]
fn byte_strings_and_arrays_are_read_back() {
    let mut out = Vec::new();
    item::write_bytes(&mut out, &[1, 2, 3]);
    assert_eq!(out, vec![0x43, 1, 2, 3]);
    assert_eq!(item::read_bytes(&out, 0), Some((vec![1, 2, 3], 4)));
    assert_eq!(item::read_bytes(&out[..3], 0), None);

    let mut out = Vec::new();
    item::write_uint8_array(&mut out, &[0, 23, 24, 255]);
    assert_eq!(out, vec![0x84, 0x00, 0x17, 0x18, 0x18, 0x18, 0xff]);
    assert_eq!(
        item::read_uint8_array(&out, 0),
        Some((vec![0, 23, 24, 255], 7))
    );
    assert_eq!(item::read_uint8_array(&out[..6], 0), None);
    // an array that declares more items than a machine could hold
    assert_eq!(
        item::read_uint8_array(&[0x9b, 0x7f, 0xff, 0xff, 0xff, 0xff, 0xff, 0xff, 0xff, 0x00], 0),
        None
    );
    assert_eq!(item::to_array_16(&[7u8; 16]), Some([7u8; 16]));
    assert_eq!(item::to_array_16(&[7u8; 15]), None);
    assert_eq!(item::to_array_32(&[7u8; 32]), Some([7u8; 32]));
    assert_eq!(item::to_array_32(&[7u8; 33]), None);
}
