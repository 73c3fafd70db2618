//! The binary encoding of Bonk messages.
//!
//! A message is one self-describing item. A variant without content is the
//! text string of its name; a variant with content is a map of one pair from
//! its name to its content. A record is a map from field names to values, in
//! the order of declaration. A key, an identifier and a nonce are arrays of
//! small numbers, an address is a text string, a signature is a byte string.
//! A reader accepts exactly what a writer produces.

use crate::error::BonkError;
use crate::item::{
    bytes_item, expect_key, lemma_bytes_of_parse, lemma_key_found, lemma_keys_differ,
    lemma_parse_of_bytes, lemma_parse_of_text, lemma_parse_of_uint8_array, lemma_text_of_parse,
    lemma_uint8_array_of_parse, parse_bytes, parse_key, parse_text, parse_uint8_array,
    read_bytes, read_text, read_uint8_array, text_item, to_array_16, to_array_32, uint8_array,
    write_bytes, write_text, write_uint8_array,
};
use crate::message::{
    EncryptedData, EncryptedDataView, Message, MessageView, PeerInformation,
    PeerInformationView, Signal, SignalView, Signature,
};
use crate::wire::{
    head_bytes, head_encoding, lemma_head_of_parse, lemma_parse_of_head, parse_short_head,
    read_head, push_head, Head,
};
use vstd::prelude::*;
use vstd::utf8::{encode_utf8, is_ascii_chars_encode_utf8};

verus! {

/// A field whose value is an array of small numbers.
#[verifier::opaque]
pub open spec fn array_field(key: Seq<char>, values: Seq<u8>) -> Seq<u8> {
    text_item(key) + uint8_array(values)
}

/// A field whose value is a text string.
#[verifier::opaque]
pub open spec fn text_field(key: Seq<char>, text: Seq<char>) -> Seq<u8> {
    text_item(key) + text_item(text)
}

/// A field whose value is a byte string.
#[verifier::opaque]
pub open spec fn bytes_field(key: Seq<char>, bytes: Seq<u8>) -> Seq<u8> {
    text_item(key) + bytes_item(bytes)
}

/// The array field `key` at the start of `s` and the bytes it takes.
#[verifier::opaque]
pub open spec fn parse_array_field(s: Seq<u8>, key: Seq<char>) -> Option<(Seq<u8>, nat)> {
    match parse_key(s, key) {
        Some(k) => match parse_uint8_array(s.skip(k as int)) {
            Some((values, n)) => Some((values, k + n)),
            None => None,
        },
        None => None,
    }
}

/// The text field `key` at the start of `s` and the bytes it takes.
#[verifier::opaque]
pub open spec fn parse_text_field(s: Seq<u8>, key: Seq<char>) -> Option<(Seq<char>, nat)> {
    match parse_key(s, key) {
        Some(k) => match parse_text(s.skip(k as int)) {
            Some((text, n)) => Some((text, k + n)),
            None => None,
        },
        None => None,
    }
}

/// The bytes field `key` at the start of `s` and the bytes it takes.
#[verifier::opaque]
pub open spec fn parse_bytes_field(s: Seq<u8>, key: Seq<char>) -> Option<(Seq<u8>, nat)> {
    match parse_key(s, key) {
        Some(k) => match parse_bytes(s.skip(k as int)) {
            Some((bytes, n)) => Some((bytes, k + n)),
            None => None,
        },
        None => None,
    }
}

/// The first `a + b` elements are the first `a`, then the first `b` of the
/// rest.
proof fn lemma_prefix_split(s: Seq<u8>, a: nat, b: nat)
    requires
        a + b <= s.len(),
    ensures
        s.subrange(0, (a + b) as int) == s.subrange(0, a as int) + s.skip(a as int).subrange(
            0,
            b as int,
        ),
{
    assert(s.subrange(0, (a + b) as int) =~= s.subrange(0, a as int) + s.skip(a as int).subrange(
        0,
        b as int,
    ));
}

/// Reading a written array field gives the values back.
pub proof fn lemma_parse_of_array_field(key: Seq<char>, values: Seq<u8>, rest: Seq<u8>)
    requires
        values.len() <= usize::MAX,
    ensures
        parse_array_field(array_field(key, values) + rest, key) == Some(
            (values, array_field(key, values).len()),
        ),
{
    reveal(array_field);
    reveal(parse_array_field);
    let s = array_field(key, values) + rest;
    let k = text_item(key).len();
    assert(s.subrange(0, k as int) =~= text_item(key));
    assert(s.skip(k as int) =~= uint8_array(values) + rest);
    lemma_parse_of_uint8_array(values, rest);
}

/// Reading a written text field gives the text back.
pub proof fn lemma_parse_of_text_field(key: Seq<char>, text: Seq<char>, rest: Seq<u8>)
    requires
        encode_utf8(text).len() <= usize::MAX,
    ensures
        parse_text_field(text_field(key, text) + rest, key) == Some(
            (text, text_field(key, text).len()),
        ),
{
    reveal(text_field);
    reveal(parse_text_field);
    let s = text_field(key, text) + rest;
    let k = text_item(key).len();
    assert(s.subrange(0, k as int) =~= text_item(key));
    assert(s.skip(k as int) =~= text_item(text) + rest);
    lemma_parse_of_text(text, rest);
}

/// Reading a written bytes field gives the bytes back.
pub proof fn lemma_parse_of_bytes_field(key: Seq<char>, bytes: Seq<u8>, rest: Seq<u8>)
    requires
        bytes.len() <= usize::MAX,
    ensures
        parse_bytes_field(bytes_field(key, bytes) + rest, key) == Some(
            (bytes, bytes_field(key, bytes).len()),
        ),
{
    reveal(bytes_field);
    reveal(parse_bytes_field);
    let s = bytes_field(key, bytes) + rest;
    let k = text_item(key).len();
    assert(s.subrange(0, k as int) =~= text_item(key));
    assert(s.skip(k as int) =~= bytes_item(bytes) + rest);
    lemma_parse_of_bytes(bytes, rest);
}

/// An array field that is read stands on the wire as a writer puts it.
pub proof fn lemma_array_field_of_parse(s: Seq<u8>, key: Seq<char>)
    requires
        parse_array_field(s, key) is Some,
    ensures
        parse_array_field(s, key)->Some_0.1 <= s.len(),
        s.subrange(0, parse_array_field(s, key)->Some_0.1 as int) == array_field(
            key,
            parse_array_field(s, key)->Some_0.0,
        ),
        parse_array_field(s, key)->Some_0.0.len() <= usize::MAX,
{
    reveal(array_field);
    reveal(parse_array_field);
    let k = parse_key(s, key)->Some_0;
    lemma_uint8_array_of_parse(s.skip(k as int));
    let n = parse_uint8_array(s.skip(k as int))->Some_0.1;
    lemma_prefix_split(s, k, n);
}

/// A text field that is read stands on the wire as a writer puts it.
pub proof fn lemma_text_field_of_parse(s: Seq<u8>, key: Seq<char>)
    requires
        parse_text_field(s, key) is Some,
    ensures
        parse_text_field(s, key)->Some_0.1 <= s.len(),
        s.subrange(0, parse_text_field(s, key)->Some_0.1 as int) == text_field(
            key,
            parse_text_field(s, key)->Some_0.0,
        ),
        encode_utf8(parse_text_field(s, key)->Some_0.0).len() <= usize::MAX,
{
    reveal(text_field);
    reveal(parse_text_field);
    let k = parse_key(s, key)->Some_0;
    lemma_text_of_parse(s.skip(k as int));
    let n = parse_text(s.skip(k as int))->Some_0.1;
    lemma_prefix_split(s, k, n);
}

/// A bytes field that is read stands on the wire as a writer puts it.
pub proof fn lemma_bytes_field_of_parse(s: Seq<u8>, key: Seq<char>)
    requires
        parse_bytes_field(s, key) is Some,
    ensures
        parse_bytes_field(s, key)->Some_0.1 <= s.len(),
        s.subrange(0, parse_bytes_field(s, key)->Some_0.1 as int) == bytes_field(
            key,
            parse_bytes_field(s, key)->Some_0.0,
        ),
        parse_bytes_field(s, key)->Some_0.0.len() <= usize::MAX,
{
    reveal(bytes_field);
    reveal(parse_bytes_field);
    let k = parse_key(s, key)->Some_0;
    lemma_bytes_of_parse(s.skip(k as int));
    let n = parse_bytes(s.skip(k as int))->Some_0.1;
    lemma_prefix_split(s, k, n);
}

/// Appends the array field `key` with `values` to `out`.
fn write_array_field(out: &mut Vec<u8>, key: &str, values: &[u8])
    ensures
        final(out)@ == old(out)@ + array_field(key@, values@),
        values@.len() <= usize::MAX,
{
    write_text(out, key);
    write_uint8_array(out, values);
    proof {
        reveal(array_field);
    }
    assert(out@ =~= old(out)@ + array_field(key@, values@));
}

/// Reads the array field `key` that stands at `pos`.
fn read_array_field(input: &[u8], pos: usize, key: &str) -> (r: Option<(Vec<u8>, usize)>)
    requires
        pos <= input@.len(),
    ensures
        match parse_array_field(input@.skip(pos as int), key@) {
            Some((values, used)) => r is Some && r->Some_0.0@ == values && r->Some_0.1 == pos
                + used && pos + used <= input@.len(),
            None => r is None,
        },
{
    proof {
        reveal(parse_array_field);
    }
    match expect_key(input, pos, key) {
        Some(at) => {
            assert(input@.skip(at as int) =~= input@.skip(pos as int).skip(at - pos));
            read_uint8_array(input, at)
        },
        None => None,
    }
}

/// Reads the text field `key` that stands at `pos`.
fn read_text_field(input: &[u8], pos: usize, key: &str) -> (r: Option<(String, usize)>)
    requires
        pos <= input@.len(),
    ensures
        match parse_text_field(input@.skip(pos as int), key@) {
            Some((text, used)) => r is Some && r->Some_0.0@ == text && r->Some_0.1 == pos + used
                && pos + used <= input@.len(),
            None => r is None,
        },
{
    proof {
        reveal(parse_text_field);
    }
    match expect_key(input, pos, key) {
        Some(at) => {
            assert(input@.skip(at as int) =~= input@.skip(pos as int).skip(at - pos));
            read_text(input, at)
        },
        None => None,
    }
}

/// Reads the bytes field `key` that stands at `pos`.
fn read_bytes_field(input: &[u8], pos: usize, key: &str) -> (r: Option<(Vec<u8>, usize)>)
    requires
        pos <= input@.len(),
    ensures
        match parse_bytes_field(input@.skip(pos as int), key@) {
            Some((bytes, used)) => r is Some && r->Some_0.0@ == bytes && r->Some_0.1 == pos
                + used && pos + used <= input@.len(),
            None => r is None,
        },
{
    proof {
        reveal(parse_bytes_field);
    }
    match expect_key(input, pos, key) {
        Some(at) => {
            assert(input@.skip(at as int) =~= input@.skip(pos as int).skip(at - pos));
            read_bytes(input, at)
        },
        None => None,
    }
}

/// What bounds a peer entry that can be held in memory.
pub open spec fn peer_fits(info: PeerInformationView) -> bool {
    info.wf() && encode_utf8(info.address).len() <= usize::MAX
}

/// A peer entry on the wire: a map of its two fields.
pub open spec fn encode_peer(info: PeerInformationView) -> Seq<u8> {
    head_encoding(5, 2) + array_field("public_key"@, info.public_key) + text_field(
        "address"@,
        info.address,
    )
}

/// The peer entry at the start of `s` and the bytes it takes.
pub open spec fn parse_peer(s: Seq<u8>) -> Option<(PeerInformationView, nat)> {
    match parse_short_head(s) {
        Some((Head::Pairs(2), n0)) => match parse_array_field(s.skip(n0 as int), "public_key"@) {
            Some((public_key, n1)) => match parse_text_field(
                s.skip((n0 + n1) as int),
                "address"@,
            ) {
                Some((address, n2)) => if public_key.len() == 32 {
                    Some((PeerInformationView { public_key, address }, n0 + n1 + n2))
                } else {
                    None
                },
                None => None,
            },
            None => None,
        },
        _ => None,
    }
}

/// Reading a written peer entry gives the entry back, whatever follows it.
pub proof fn lemma_parse_of_peer(info: PeerInformationView, rest: Seq<u8>)
    requires
        peer_fits(info),
    ensures
        parse_peer(encode_peer(info) + rest) == Some((info, encode_peer(info).len())),
{
    let s = encode_peer(info) + rest;
    let head = Head::Pairs(2);
    let f1 = array_field("public_key"@, info.public_key);
    let f2 = text_field("address"@, info.address);
    assert(s =~= head_bytes(head) + (f1 + f2 + rest));
    lemma_parse_of_head(head, f1 + f2 + rest);
    let n0 = head_bytes(head).len();
    assert(s.skip(n0 as int) =~= f1 + (f2 + rest));
    lemma_parse_of_array_field("public_key"@, info.public_key, f2 + rest);
    let n1 = f1.len();
    assert(s.skip((n0 + n1) as int) =~= f2 + rest);
    lemma_parse_of_text_field("address"@, info.address, rest);
}

/// A peer entry that is read stands on the wire as a writer puts it.
pub proof fn lemma_peer_of_parse(s: Seq<u8>)
    requires
        parse_peer(s) is Some,
    ensures
        parse_peer(s)->Some_0.1 <= s.len(),
        s.subrange(0, parse_peer(s)->Some_0.1 as int) == encode_peer(parse_peer(s)->Some_0.0),
        peer_fits(parse_peer(s)->Some_0.0),
{
    let n0 = parse_short_head(s)->Some_0.1;
    lemma_head_of_parse(s);
    let s1 = s.skip(n0 as int);
    lemma_array_field_of_parse(s1, "public_key"@);
    let n1 = parse_array_field(s1, "public_key"@)->Some_0.1;
    let s2 = s.skip((n0 + n1) as int);
    lemma_text_field_of_parse(s2, "address"@);
    let n2 = parse_text_field(s2, "address"@)->Some_0.1;
    assert(s1.skip(n1 as int) =~= s2);
    lemma_prefix_split(s1, n1, n2);
    lemma_prefix_split(s, n0, n1 + n2);
}

/// Appends the peer entry `info` to `out`.
fn write_peer(out: &mut Vec<u8>, info: &PeerInformation)
    ensures
        final(out)@ == old(out)@ + encode_peer(info@),
        peer_fits(info@),
{
    push_head(out, Head::Pairs(2));
    write_array_field(out, "public_key", info.public_key.as_slice());
    write_text(out, "address");
    write_text(out, info.address.as_str());
    proof {
        reveal(text_field);
    }
    assert(out@ =~= old(out)@ + encode_peer(info@));
}

/// Reads the peer entry that stands at `pos`.
fn read_peer(input: &[u8], pos: usize) -> (r: Option<(PeerInformation, usize)>)
    requires
        pos <= input@.len(),
    ensures
        match parse_peer(input@.skip(pos as int)) {
            Some((info, used)) => r is Some && r->Some_0.0@ == info && r->Some_0.1 == pos + used
                && pos + used <= input@.len(),
            None => r is None,
        },
{
    let ghost s = input@.skip(pos as int);
    let pos0: usize = match read_head(input, pos) {
        Some((Head::Pairs(2), at)) => at,
        _ => {
            return None;
        },
    };
    assert(input@.skip(pos0 as int) =~= s.skip(pos0 - pos));
    let (key, pos1) = match read_array_field(input, pos0, "public_key") {
        Some(found) => found,
        None => {
            return None;
        },
    };
    assert(input@.skip(pos1 as int) =~= s.skip(pos1 - pos));
    let (address, pos2) = match read_text_field(input, pos1, "address") {
        Some(found) => found,
        None => {
            return None;
        },
    };
    match to_array_32(key.as_slice()) {
        Some(public_key) => Some((PeerInformation { public_key, address }, pos2)),
        None => None,
    }
}

/// What bounds an encrypted payload that can be held in memory.
pub open spec fn data_fits(data: EncryptedDataView) -> bool {
    data.wf() && data.ciphertext.len() <= usize::MAX
}

/// An encrypted payload on the wire: a map of its two fields.
pub open spec fn encode_data(data: EncryptedDataView) -> Seq<u8> {
    head_encoding(5, 2) + array_field("nonce"@, data.nonce) + array_field(
        "ciphertext"@,
        data.ciphertext,
    )
}

/// The encrypted payload at the start of `s` and the bytes it takes.
pub open spec fn parse_data(s: Seq<u8>) -> Option<(EncryptedDataView, nat)> {
    match parse_short_head(s) {
        Some((Head::Pairs(2), n0)) => match parse_array_field(s.skip(n0 as int), "nonce"@) {
            Some((nonce, n1)) => match parse_array_field(
                s.skip((n0 + n1) as int),
                "ciphertext"@,
            ) {
                Some((ciphertext, n2)) => if nonce.len() == 32 {
                    Some((EncryptedDataView { nonce, ciphertext }, n0 + n1 + n2))
                } else {
                    None
                },
                None => None,
            },
            None => None,
        },
        _ => None,
    }
}

/// Reading a written payload gives the payload back, whatever follows it.
pub proof fn lemma_parse_of_data(data: EncryptedDataView, rest: Seq<u8>)
    requires
        data_fits(data),
    ensures
        parse_data(encode_data(data) + rest) == Some((data, encode_data(data).len())),
{
    let s = encode_data(data) + rest;
    let head = Head::Pairs(2);
    let f1 = array_field("nonce"@, data.nonce);
    let f2 = array_field("ciphertext"@, data.ciphertext);
    assert(s =~= head_bytes(head) + (f1 + f2 + rest));
    lemma_parse_of_head(head, f1 + f2 + rest);
    let n0 = head_bytes(head).len();
    assert(s.skip(n0 as int) =~= f1 + (f2 + rest));
    lemma_parse_of_array_field("nonce"@, data.nonce, f2 + rest);
    let n1 = f1.len();
    assert(s.skip((n0 + n1) as int) =~= f2 + rest);
    lemma_parse_of_array_field("ciphertext"@, data.ciphertext, rest);
}

/// A payload that is read stands on the wire as a writer puts it.
pub proof fn lemma_data_of_parse(s: Seq<u8>)
    requires
        parse_data(s) is Some,
    ensures
        parse_data(s)->Some_0.1 <= s.len(),
        s.subrange(0, parse_data(s)->Some_0.1 as int) == encode_data(parse_data(s)->Some_0.0),
        data_fits(parse_data(s)->Some_0.0),
{
    let n0 = parse_short_head(s)->Some_0.1;
    lemma_head_of_parse(s);
    let s1 = s.skip(n0 as int);
    lemma_array_field_of_parse(s1, "nonce"@);
    let n1 = parse_array_field(s1, "nonce"@)->Some_0.1;
    let s2 = s.skip((n0 + n1) as int);
    lemma_array_field_of_parse(s2, "ciphertext"@);
    let n2 = parse_array_field(s2, "ciphertext"@)->Some_0.1;
    assert(s1.skip(n1 as int) =~= s2);
    lemma_prefix_split(s1, n1, n2);
    lemma_prefix_split(s, n0, n1 + n2);
}

/// Appends the encrypted payload `data` to `out`.
fn write_data(out: &mut Vec<u8>, data: &EncryptedData)
    ensures
        final(out)@ == old(out)@ + encode_data(data@),
        data_fits(data@),
{
    push_head(out, Head::Pairs(2));
    write_array_field(out, "nonce", data.nonce.as_slice());
    write_array_field(out, "ciphertext", data.ciphertext.as_slice());
    assert(out@ =~= old(out)@ + encode_data(data@));
}

/// Reads the encrypted payload that stands at `pos`.
fn read_data(input: &[u8], pos: usize) -> (r: Option<(EncryptedData, usize)>)
    requires
        pos <= input@.len(),
    ensures
        match parse_data(input@.skip(pos as int)) {
            Some((data, used)) => r is Some && r->Some_0.0@ == data && r->Some_0.1 == pos + used
                && pos + used <= input@.len(),
            None => r is None,
        },
{
    let ghost s = input@.skip(pos as int);
    let pos0: usize = match read_head(input, pos) {
        Some((Head::Pairs(2), at)) => at,
        _ => {
            return None;
        },
    };
    assert(input@.skip(pos0 as int) =~= s.skip(pos0 - pos));
    let (nonce, pos1) = match read_array_field(input, pos0, "nonce") {
        Some(found) => found,
        None => {
            return None;
        },
    };
    assert(input@.skip(pos1 as int) =~= s.skip(pos1 - pos));
    let (ciphertext, pos2) = match read_array_field(input, pos1, "ciphertext") {
        Some(found) => found,
        None => {
            return None;
        },
    };
    match to_array_32(nonce.as_slice()) {
        Some(nonce) => Some((EncryptedData { nonce, ciphertext }, pos2)),
        None => None,
    }
}

/// A field whose value is an encrypted payload.
#[verifier::opaque]
pub open spec fn data_field(key: Seq<char>, data: EncryptedDataView) -> Seq<u8> {
    text_item(key) + encode_data(data)
}

/// The payload field `key` at the start of `s` and the bytes it takes.
#[verifier::opaque]
pub open spec fn parse_data_field(s: Seq<u8>, key: Seq<char>) -> Option<
    (EncryptedDataView, nat),
> {
    match parse_key(s, key) {
        Some(k) => match parse_data(s.skip(k as int)) {
            Some((data, n)) => Some((data, k + n)),
            None => None,
        },
        None => None,
    }
}

/// Reading a written payload field gives the payload back.
pub proof fn lemma_parse_of_data_field(key: Seq<char>, data: EncryptedDataView, rest: Seq<u8>)
    requires
        data_fits(data),
    ensures
        parse_data_field(data_field(key, data) + rest, key) == Some(
            (data, data_field(key, data).len()),
        ),
{
    reveal(data_field);
    reveal(parse_data_field);
    let s = data_field(key, data) + rest;
    let k = text_item(key).len();
    assert(s.subrange(0, k as int) =~= text_item(key));
    assert(s.skip(k as int) =~= encode_data(data) + rest);
    lemma_parse_of_data(data, rest);
}

/// A payload field that is read stands on the wire as a writer puts it.
pub proof fn lemma_data_field_of_parse(s: Seq<u8>, key: Seq<char>)
    requires
        parse_data_field(s, key) is Some,
    ensures
        parse_data_field(s, key)->Some_0.1 <= s.len(),
        s.subrange(0, parse_data_field(s, key)->Some_0.1 as int) == data_field(
            key,
            parse_data_field(s, key)->Some_0.0,
        ),
        data_fits(parse_data_field(s, key)->Some_0.0),
{
    reveal(data_field);
    reveal(parse_data_field);
    let k = parse_key(s, key)->Some_0;
    lemma_data_of_parse(s.skip(k as int));
    let n = parse_data(s.skip(k as int))->Some_0.1;
    lemma_prefix_split(s, k, n);
}

/// Reads the payload field `key` that stands at `pos`.
fn read_data_field(input: &[u8], pos: usize, key: &str) -> (r: Option<(EncryptedData, usize)>)
    requires
        pos <= input@.len(),
    ensures
        match parse_data_field(input@.skip(pos as int), key@) {
            Some((data, used)) => r is Some && r->Some_0.0@ == data && r->Some_0.1 == pos + used
                && pos + used <= input@.len(),
            None => r is None,
        },
{
    proof {
        reveal(parse_data_field);
    }
    match expect_key(input, pos, key) {
        Some(at) => {
            assert(input@.skip(at as int) =~= input@.skip(pos as int).skip(at - pos));
            read_data(input, at)
        },
        None => None,
    }
}

/// What bounds a signal that can be held in memory.
pub open spec fn signal_fits(signal: SignalView) -> bool {
    signal.wf() && signal.encrypted_data.ciphertext.len() <= usize::MAX
}

/// A signal on the wire: a map of its five fields.
pub open spec fn encode_signal(signal: SignalView) -> Seq<u8> {
    head_encoding(5, 5) + array_field("signal_id"@, signal.signal_id) + array_field(
        "sender"@,
        signal.sender,
    ) + array_field("receiver"@, signal.receiver) + data_field(
        "encrypted_data"@,
        signal.encrypted_data,
    ) + bytes_field("signature"@, signal.signature)
}

/// The signal at the start of `s` and the bytes it takes.
pub open spec fn parse_signal(s: Seq<u8>) -> Option<(SignalView, nat)> {
    match parse_short_head(s) {
        Some((Head::Pairs(5), n0)) => match parse_array_field(s.skip(n0 as int), "signal_id"@) {
            Some((signal_id, n1)) => match parse_array_field(
                s.skip((n0 + n1) as int),
                "sender"@,
            ) {
                Some((sender, n2)) => match parse_array_field(
                    s.skip((n0 + n1 + n2) as int),
                    "receiver"@,
                ) {
                    Some((receiver, n3)) => match parse_data_field(
                        s.skip((n0 + n1 + n2 + n3) as int),
                        "encrypted_data"@,
                    ) {
                        Some((encrypted_data, n4)) => match parse_bytes_field(
                            s.skip((n0 + n1 + n2 + n3 + n4) as int),
                            "signature"@,
                        ) {
                            Some((signature, n5)) => if signal_id.len() == 16 && sender.len()
                                == 32 && receiver.len() == 32 && signature.len() == 64 {
                                Some(
                                    (
                                        SignalView {
                                            signal_id,
                                            sender,
                                            receiver,
                                            encrypted_data,
                                            signature,
                                        },
                                        n0 + n1 + n2 + n3 + n4 + n5,
                                    ),
                                )
                            } else {
                                None
                            },
                            None => None,
                        },
                        None => None,
                    },
                    None => None,
                },
                None => None,
            },
            None => None,
        },
        _ => None,
    }
}

/// Reading a written signal gives the signal back, whatever follows it.
pub proof fn lemma_parse_of_signal(signal: SignalView, rest: Seq<u8>)
    requires
        signal_fits(signal),
    ensures
        parse_signal(encode_signal(signal) + rest) == Some((signal, encode_signal(signal).len())),
{
    let s = encode_signal(signal) + rest;
    let head = Head::Pairs(5);
    let f1 = array_field("signal_id"@, signal.signal_id);
    let f2 = array_field("sender"@, signal.sender);
    let f3 = array_field("receiver"@, signal.receiver);
    let f4 = data_field("encrypted_data"@, signal.encrypted_data);
    let f5 = bytes_field("signature"@, signal.signature);
    let n0 = head_bytes(head).len();
    let n1 = f1.len();
    let n2 = f2.len();
    let n3 = f3.len();
    let n4 = f4.len();
    assert(s =~= head_bytes(head) + (f1 + f2 + f3 + f4 + f5 + rest));
    lemma_parse_of_head(head, f1 + f2 + f3 + f4 + f5 + rest);
    assert(s.skip(n0 as int) =~= f1 + (f2 + f3 + f4 + f5 + rest));
    lemma_parse_of_array_field("signal_id"@, signal.signal_id, f2 + f3 + f4 + f5 + rest);
    assert(s.skip((n0 + n1) as int) =~= f2 + (f3 + f4 + f5 + rest));
    lemma_parse_of_array_field("sender"@, signal.sender, f3 + f4 + f5 + rest);
    assert(s.skip((n0 + n1 + n2) as int) =~= f3 + (f4 + f5 + rest));
    lemma_parse_of_array_field("receiver"@, signal.receiver, f4 + f5 + rest);
    assert(s.skip((n0 + n1 + n2 + n3) as int) =~= f4 + (f5 + rest));
    lemma_parse_of_data_field("encrypted_data"@, signal.encrypted_data, f5 + rest);
    assert(s.skip((n0 + n1 + n2 + n3 + n4) as int) =~= f5 + rest);
    lemma_parse_of_bytes_field("signature"@, signal.signature, rest);
}

/// A signal that is read stands on the wire as a writer puts it.
pub proof fn lemma_signal_of_parse(s: Seq<u8>)
    requires
        parse_signal(s) is Some,
    ensures
        parse_signal(s)->Some_0.1 <= s.len(),
        s.subrange(0, parse_signal(s)->Some_0.1 as int) == encode_signal(
            parse_signal(s)->Some_0.0,
        ),
        signal_fits(parse_signal(s)->Some_0.0),
{
    let n0 = parse_short_head(s)->Some_0.1;
    lemma_head_of_parse(s);
    let s1 = s.skip(n0 as int);
    lemma_array_field_of_parse(s1, "signal_id"@);
    let n1 = parse_array_field(s1, "signal_id"@)->Some_0.1;
    let s2 = s.skip((n0 + n1) as int);
    lemma_array_field_of_parse(s2, "sender"@);
    let n2 = parse_array_field(s2, "sender"@)->Some_0.1;
    let s3 = s.skip((n0 + n1 + n2) as int);
    lemma_array_field_of_parse(s3, "receiver"@);
    let n3 = parse_array_field(s3, "receiver"@)->Some_0.1;
    let s4 = s.skip((n0 + n1 + n2 + n3) as int);
    lemma_data_field_of_parse(s4, "encrypted_data"@);
    let n4 = parse_data_field(s4, "encrypted_data"@)->Some_0.1;
    let s5 = s.skip((n0 + n1 + n2 + n3 + n4) as int);
    lemma_bytes_field_of_parse(s5, "signature"@);
    let n5 = parse_bytes_field(s5, "signature"@)->Some_0.1;
    assert(s4.skip(n4 as int) =~= s5);
    lemma_prefix_split(s4, n4, n5);
    assert(s3.skip(n3 as int) =~= s4);
    lemma_prefix_split(s3, n3, n4 + n5);
    assert(s2.skip(n2 as int) =~= s3);
    lemma_prefix_split(s2, n2, n3 + n4 + n5);
    assert(s1.skip(n1 as int) =~= s2);
    lemma_prefix_split(s1, n1, n2 + n3 + n4 + n5);
    lemma_prefix_split(s, n0, n1 + n2 + n3 + n4 + n5);
}

/// Appends the signal `signal` to `out`.
fn write_signal(out: &mut Vec<u8>, signal: &Signal)
    ensures
        final(out)@ == old(out)@ + encode_signal(signal@),
        signal_fits(signal@),
{
    push_head(out, Head::Pairs(5));
    write_array_field(out, "signal_id", signal.signal_id.as_slice());
    write_array_field(out, "sender", signal.sender.as_slice());
    write_array_field(out, "receiver", signal.receiver.as_slice());
    let ghost before = out@;
    write_text(out, "encrypted_data");
    write_data(out, &signal.encrypted_data);
    let ghost middle = out@;
    write_text(out, "signature");
    write_bytes(out, signal.signature.0.as_slice());
    proof {
        reveal(data_field);
        reveal(bytes_field);
        assert(middle =~= before + data_field("encrypted_data"@, signal.encrypted_data@));
        assert(out@ =~= middle + bytes_field("signature"@, signal.signature@));
    }
    assert(out@ =~= old(out)@ + encode_signal(signal@));
}

/// Reads the signal that stands at `pos`.
fn read_signal(input: &[u8], pos: usize) -> (r: Option<(Signal, usize)>)
    requires
        pos <= input@.len(),
    ensures
        match parse_signal(input@.skip(pos as int)) {
            Some((signal, used)) => r is Some && r->Some_0.0@ == signal && r->Some_0.1 == pos
                + used && pos + used <= input@.len(),
            None => r is None,
        },
{
    let ghost s = input@.skip(pos as int);
    let pos0: usize = match read_head(input, pos) {
        Some((Head::Pairs(5), at)) => at,
        _ => {
            return None;
        },
    };
    assert(input@.skip(pos0 as int) =~= s.skip(pos0 - pos));
    let (signal_id, pos1) = match read_array_field(input, pos0, "signal_id") {
        Some(found) => found,
        None => {
            return None;
        },
    };
    assert(input@.skip(pos1 as int) =~= s.skip(pos1 - pos));
    let (sender, pos2) = match read_array_field(input, pos1, "sender") {
        Some(found) => found,
        None => {
            return None;
        },
    };
    assert(input@.skip(pos2 as int) =~= s.skip(pos2 - pos));
    let (receiver, pos3) = match read_array_field(input, pos2, "receiver") {
        Some(found) => found,
        None => {
            return None;
        },
    };
    assert(input@.skip(pos3 as int) =~= s.skip(pos3 - pos));
    let (encrypted_data, pos4) = match read_data_field(input, pos3, "encrypted_data") {
        Some(found) => found,
        None => {
            return None;
        },
    };
    assert(input@.skip(pos4 as int) =~= s.skip(pos4 - pos));
    let (raw, pos5) = match read_bytes_field(input, pos4, "signature") {
        Some(found) => found,
        None => {
            return None;
        },
    };
    let signal_id = match to_array_16(signal_id.as_slice()) {
        Some(array) => array,
        None => {
            return None;
        },
    };
    let sender = match to_array_32(sender.as_slice()) {
        Some(array) => array,
        None => {
            return None;
        },
    };
    let receiver = match to_array_32(receiver.as_slice()) {
        Some(array) => array,
        None => {
            return None;
        },
    };
    let signature = match Signature::from_slice(raw.as_slice()) {
        Ok(signature) => signature,
        Err(_) => {
            return None;
        },
    };
    Some((Signal { signal_id, sender, receiver, encrypted_data, signature }, pos5))
}

/// A field whose value is a peer.
#[verifier::opaque]
pub open spec fn peer_field(key: Seq<char>, value: PeerInformationView) -> Seq<u8> {
    text_item(key) + encode_peer(value)
}

/// The peer field `key` at the start of `s` and the bytes it takes.
#[verifier::opaque]
pub open spec fn parse_peer_field(s: Seq<u8>, key: Seq<char>) -> Option<(PeerInformationView, nat)> {
    match parse_key(s, key) {
        Some(k) => match parse_peer(s.skip(k as int)) {
            Some((value, n)) => Some((value, k + n)),
            None => None,
        },
        None => None,
    }
}

/// Reading a written peer field gives the peer back.
pub proof fn lemma_parse_of_peer_field(key: Seq<char>, value: PeerInformationView, rest: Seq<u8>)
    requires
        peer_fits(value),
    ensures
        parse_peer_field(peer_field(key, value) + rest, key) == Some(
            (value, peer_field(key, value).len()),
        ),
{
    reveal(peer_field);
    reveal(parse_peer_field);
    let s = peer_field(key, value) + rest;
    let k = text_item(key).len();
    assert(s.subrange(0, k as int) =~= text_item(key));
    assert(s.skip(k as int) =~= encode_peer(value) + rest);
    lemma_parse_of_peer(value, rest);
}

/// A peer field that is read stands on the wire as a writer puts it.
pub proof fn lemma_peer_field_of_parse(s: Seq<u8>, key: Seq<char>)
    requires
        parse_peer_field(s, key) is Some,
    ensures
        parse_peer_field(s, key)->Some_0.1 <= s.len(),
        s.subrange(0, parse_peer_field(s, key)->Some_0.1 as int) == peer_field(
            key,
            parse_peer_field(s, key)->Some_0.0,
        ),
        peer_fits(parse_peer_field(s, key)->Some_0.0),
{
    reveal(peer_field);
    reveal(parse_peer_field);
    let k = parse_key(s, key)->Some_0;
    lemma_peer_of_parse(s.skip(k as int));
    let n = parse_peer(s.skip(k as int))->Some_0.1;
    lemma_prefix_split(s, k, n);
}

/// Appends the peer field `key` with `value` to `out`.
fn write_peer_field(out: &mut Vec<u8>, key: &str, value: &PeerInformation)
    ensures
        final(out)@ == old(out)@ + peer_field(key@, value@),
        peer_fits(value@),
{
    write_text(out, key);
    write_peer(out, value);
    proof {
        reveal(peer_field);
    }
    assert(out@ =~= old(out)@ + peer_field(key@, value@));
}

/// Reads the peer field `key` that stands at `pos`.
fn read_peer_field(input: &[u8], pos: usize, key: &str) -> (r: Option<(PeerInformation, usize)>)
    requires
        pos <= input@.len(),
    ensures
        match parse_peer_field(input@.skip(pos as int), key@) {
            Some((value, used)) => r is Some && r->Some_0.0@ == value && r->Some_0.1 == pos
                + used && pos + used <= input@.len(),
            None => r is None,
        },
{
    proof {
        reveal(parse_peer_field);
    }
    match expect_key(input, pos, key) {
        Some(at) => {
            assert(input@.skip(at as int) =~= input@.skip(pos as int).skip(at - pos));
            read_peer(input, at)
        },
        None => None,
    }
}

/// A field whose value is a signal.
#[verifier::opaque]
pub open spec fn signal_field(key: Seq<char>, value: SignalView) -> Seq<u8> {
    text_item(key) + encode_signal(value)
}

/// The signal field `key` at the start of `s` and the bytes it takes.
#[verifier::opaque]
pub open spec fn parse_signal_field(s: Seq<u8>, key: Seq<char>) -> Option<(SignalView, nat)> {
    match parse_key(s, key) {
        Some(k) => match parse_signal(s.skip(k as int)) {
            Some((value, n)) => Some((value, k + n)),
            None => None,
        },
        None => None,
    }
}

/// Reading a written signal field gives the signal back.
pub proof fn lemma_parse_of_signal_field(key: Seq<char>, value: SignalView, rest: Seq<u8>)
    requires
        signal_fits(value),
    ensures
        parse_signal_field(signal_field(key, value) + rest, key) == Some(
            (value, signal_field(key, value).len()),
        ),
{
    reveal(signal_field);
    reveal(parse_signal_field);
    let s = signal_field(key, value) + rest;
    let k = text_item(key).len();
    assert(s.subrange(0, k as int) =~= text_item(key));
    assert(s.skip(k as int) =~= encode_signal(value) + rest);
    lemma_parse_of_signal(value, rest);
}

/// A signal field that is read stands on the wire as a writer puts it.
pub proof fn lemma_signal_field_of_parse(s: Seq<u8>, key: Seq<char>)
    requires
        parse_signal_field(s, key) is Some,
    ensures
        parse_signal_field(s, key)->Some_0.1 <= s.len(),
        s.subrange(0, parse_signal_field(s, key)->Some_0.1 as int) == signal_field(
            key,
            parse_signal_field(s, key)->Some_0.0,
        ),
        signal_fits(parse_signal_field(s, key)->Some_0.0),
{
    reveal(signal_field);
    reveal(parse_signal_field);
    let k = parse_key(s, key)->Some_0;
    lemma_signal_of_parse(s.skip(k as int));
    let n = parse_signal(s.skip(k as int))->Some_0.1;
    lemma_prefix_split(s, k, n);
}

/// Appends the signal field `key` with `value` to `out`.
fn write_signal_field(out: &mut Vec<u8>, key: &str, value: &Signal)
    ensures
        final(out)@ == old(out)@ + signal_field(key@, value@),
        signal_fits(value@),
{
    write_text(out, key);
    write_signal(out, value);
    proof {
        reveal(signal_field);
    }
    assert(out@ =~= old(out)@ + signal_field(key@, value@));
}

/// Reads the signal field `key` that stands at `pos`.
fn read_signal_field(input: &[u8], pos: usize, key: &str) -> (r: Option<(Signal, usize)>)
    requires
        pos <= input@.len(),
    ensures
        match parse_signal_field(input@.skip(pos as int), key@) {
            Some((value, used)) => r is Some && r->Some_0.0@ == value && r->Some_0.1 == pos
                + used && pos + used <= input@.len(),
            None => r is None,
        },
{
    proof {
        reveal(parse_signal_field);
    }
    match expect_key(input, pos, key) {
        Some(at) => {
            assert(input@.skip(at as int) =~= input@.skip(pos as int).skip(at - pos));
            read_signal(input, at)
        },
        None => None,
    }
}

/// What bounds a message that can be held in memory: its fields of fixed
/// size have their size, and its address and ciphertext have a length that
/// a machine can count.
pub open spec fn message_fits(message: MessageView) -> bool {
    match message {
        MessageView::Bonk => true,
        MessageView::Handshake(key) => key.len() == 32,
        MessageView::PublishPeer(info) => peer_fits(info),
        MessageView::RequestPeers => true,
        MessageView::Broadcast(signal) => signal_fits(signal),
    }
}

/// The bytes of a message: the name of the variant alone, or a map of one
/// pair from the name to the content.
pub open spec fn encode_message(message: MessageView) -> Seq<u8> {
    match message {
        MessageView::Bonk => text_item("Bonk"@),
        MessageView::Handshake(key) => head_encoding(5, 1) + array_field("Handshake"@, key),
        MessageView::PublishPeer(info) => head_encoding(5, 1) + peer_field("PublishPeer"@, info),
        MessageView::RequestPeers => text_item("RequestPeers"@),
        MessageView::Broadcast(signal) => head_encoding(5, 1) + signal_field(
            "Broadcast"@,
            signal,
        ),
    }
}

/// The content of a map of one pair, where `body` follows a head of `n0`
/// bytes in an input of `total` bytes and must end with it.
pub open spec fn parse_tagged(body: Seq<u8>, n0: nat, total: nat) -> Option<MessageView> {
    match parse_array_field(body, "Handshake"@) {
        Some((key, n)) => if key.len() == 32 && n0 + n == total {
            Some(MessageView::Handshake(key))
        } else {
            None
        },
        None => match parse_peer_field(body, "PublishPeer"@) {
            Some((info, n)) => if n0 + n == total {
                Some(MessageView::PublishPeer(info))
            } else {
                None
            },
            None => match parse_signal_field(body, "Broadcast"@) {
                Some((signal, n)) => if n0 + n == total {
                    Some(MessageView::Broadcast(signal))
                } else {
                    None
                },
                None => None,
            },
        },
    }
}

/// The message that `s` is the encoding of, if it is one: the whole of `s`
/// must be one message in the form a writer gives it.
pub open spec fn parse_message(s: Seq<u8>) -> Option<MessageView> {
    if parse_key(s, "Bonk"@) == Some(s.len()) {
        Some(MessageView::Bonk)
    } else if parse_key(s, "RequestPeers"@) == Some(s.len()) {
        Some(MessageView::RequestPeers)
    } else {
        match parse_short_head(s) {
            Some((Head::Pairs(1), n0)) => parse_tagged(s.skip(n0 as int), n0, s.len()),
            _ => None,
        }
    }
}

/// The names of the variants are short and differ from each other.
proof fn lemma_names()
    ensures
        encode_utf8("Bonk"@).len() == 4,
        encode_utf8("RequestPeers"@).len() == 12,
        encode_utf8("Handshake"@).len() == 9,
        encode_utf8("PublishPeer"@).len() == 11,
        encode_utf8("Broadcast"@).len() == 9,
        "Bonk"@ != "RequestPeers"@,
        "Handshake"@ != "PublishPeer"@,
        "Handshake"@ != "Broadcast"@,
        "PublishPeer"@ != "Broadcast"@,
{
    reveal_strlit("Bonk");
    reveal_strlit("RequestPeers");
    reveal_strlit("Handshake");
    reveal_strlit("PublishPeer");
    reveal_strlit("Broadcast");
    is_ascii_chars_encode_utf8("Bonk"@);
    is_ascii_chars_encode_utf8("RequestPeers"@);
    is_ascii_chars_encode_utf8("Handshake"@);
    is_ascii_chars_encode_utf8("PublishPeer"@);
    is_ascii_chars_encode_utf8("Broadcast"@);
    assert("Handshake"@[0] != "Broadcast"@[0]);
}

/// Where a map head stands, no variant name stands.
proof fn lemma_no_name_at_map(s: Seq<u8>, pairs: usize, rest: Seq<u8>, name: Seq<char>)
    requires
        s == head_encoding(5, pairs as nat) + rest,
        encode_utf8(name).len() <= usize::MAX,
    ensures
        parse_key(s, name) is None,
{
    lemma_parse_of_head(Head::Pairs(pairs), rest);
    lemma_key_found(s, name);
}

/// Round trip: reading the bytes that were written for a message gives the
/// message back.
pub proof fn lemma_parse_of_message(message: MessageView)
    requires
        message_fits(message),
    ensures
        parse_message(encode_message(message)) == Some(message),
{
    lemma_names();
    let s = encode_message(message);
    let head = Head::Pairs(1);
    let n0 = head_bytes(head).len();
    match message {
        MessageView::Bonk => {},
        MessageView::RequestPeers => {
            assert(s =~= text_item("RequestPeers"@) + Seq::<u8>::empty());
            lemma_keys_differ("RequestPeers"@, "Bonk"@, Seq::<u8>::empty());
        },
        MessageView::Handshake(key) => {
            let f = array_field("Handshake"@, key);
            lemma_no_name_at_map(s, 1, f, "Bonk"@);
            lemma_no_name_at_map(s, 1, f, "RequestPeers"@);
            lemma_parse_of_head(head, f);
            assert(s.skip(n0 as int) =~= f + Seq::<u8>::empty());
            lemma_parse_of_array_field("Handshake"@, key, Seq::<u8>::empty());
        },
        MessageView::PublishPeer(info) => {
            let f = peer_field("PublishPeer"@, info);
            lemma_no_name_at_map(s, 1, f, "Bonk"@);
            lemma_no_name_at_map(s, 1, f, "RequestPeers"@);
            lemma_parse_of_head(head, f);
            let body = s.skip(n0 as int);
            assert(body =~= f + Seq::<u8>::empty());
            lemma_parse_of_peer_field("PublishPeer"@, info, Seq::<u8>::empty());
            assert(parse_array_field(body, "Handshake"@) is None) by {
                reveal(peer_field);
                reveal(parse_array_field);
                assert(body =~= text_item("PublishPeer"@) + encode_peer(info));
                lemma_keys_differ("PublishPeer"@, "Handshake"@, encode_peer(info));
            }
        },
        MessageView::Broadcast(signal) => {
            let f = signal_field("Broadcast"@, signal);
            lemma_no_name_at_map(s, 1, f, "Bonk"@);
            lemma_no_name_at_map(s, 1, f, "RequestPeers"@);
            lemma_parse_of_head(head, f);
            let body = s.skip(n0 as int);
            assert(body =~= f + Seq::<u8>::empty());
            lemma_parse_of_signal_field("Broadcast"@, signal, Seq::<u8>::empty());
            assert(parse_array_field(body, "Handshake"@) is None && parse_peer_field(
                body,
                "PublishPeer"@,
            ) is None) by {
                reveal(signal_field);
                reveal(parse_array_field);
                reveal(parse_peer_field);
                assert(body =~= text_item("Broadcast"@) + encode_signal(signal));
                lemma_keys_differ("Broadcast"@, "Handshake"@, encode_signal(signal));
                lemma_keys_differ("Broadcast"@, "PublishPeer"@, encode_signal(signal));
            }
        },
    }
}

/// Exactness: bytes that are read as a message are the bytes that a writer
/// gives for that message, and no others.
pub proof fn lemma_message_of_parse(s: Seq<u8>)
    requires
        parse_message(s) is Some,
    ensures
        encode_message(parse_message(s)->Some_0) == s,
        message_fits(parse_message(s)->Some_0),
{
    if parse_key(s, "Bonk"@) == Some(s.len()) {
        assert(s =~= text_item("Bonk"@));
    } else if parse_key(s, "RequestPeers"@) == Some(s.len()) {
        assert(s =~= text_item("RequestPeers"@));
    } else {
        let n0 = parse_short_head(s)->Some_0.1;
        lemma_head_of_parse(s);
        let body = s.skip(n0 as int);
        assert(s =~= s.subrange(0, n0 as int) + body);
        if parse_array_field(body, "Handshake"@) is Some {
            lemma_array_field_of_parse(body, "Handshake"@);
            assert(body.subrange(0, body.len() as int) =~= body);
        } else if parse_peer_field(body, "PublishPeer"@) is Some {
            lemma_peer_field_of_parse(body, "PublishPeer"@);
            assert(body.subrange(0, body.len() as int) =~= body);
        } else {
            lemma_signal_field_of_parse(body, "Broadcast"@);
            assert(body.subrange(0, body.len() as int) =~= body);
        }
    }
}

/// The encoding decides the message: two messages with the same bytes are
/// the same message.
pub proof fn lemma_encoding_injective(a: MessageView, b: MessageView)
    requires
        message_fits(a),
        message_fits(b),
        encode_message(a) == encode_message(b),
    ensures
        a == b,
{
    lemma_parse_of_message(a);
    lemma_parse_of_message(b);
}

impl Message {
    /// The bytes of this message, ready to be framed.
    pub fn encode(&self) -> (bytes: Vec<u8>)
        ensures
            bytes@ == encode_message(self@),
            message_fits(self@),
    {
        let mut out: Vec<u8> = Vec::new();
        match self {
            Message::Bonk => {
                write_text(&mut out, "Bonk");
            },
            Message::Handshake(key) => {
                push_head(&mut out, Head::Pairs(1));
                write_array_field(&mut out, "Handshake", key.as_slice());
            },
            Message::PublishPeer(info) => {
                push_head(&mut out, Head::Pairs(1));
                write_peer_field(&mut out, "PublishPeer", info);
            },
            Message::RequestPeers => {
                write_text(&mut out, "RequestPeers");
            },
            Message::Broadcast(signal) => {
                push_head(&mut out, Head::Pairs(1));
                write_signal_field(&mut out, "Broadcast", signal);
            },
        }
        assert(out@ =~= encode_message(self@));
        out
    }

    /// Reads a message from the payload of a frame.
    ///
    /// Succeeds exactly on the bytes that `encode` gives for some message,
    /// and then returns that message; everything else, trailing bytes
    /// included, is a `Serialization` error.
    pub fn decode(bytes: &[u8]) -> (r: Result<Message, BonkError>)
        ensures
            match parse_message(bytes@) {
                Some(message) => r is Ok && r->Ok_0@ == message,
                None => r == Err::<Message, BonkError>(BonkError::Serialization),
            },
            r is Ok ==> encode_message(r->Ok_0@) == bytes@,
            forall|message: MessageView|
                message_fits(message) && #[trigger] encode_message(message) == bytes@ ==> r is Ok
                    && r->Ok_0@ == message,
    {
        let total: usize = bytes.len();
        proof {
            assert(bytes@.skip(0) =~= bytes@);
            if parse_message(bytes@) is Some {
                lemma_message_of_parse(bytes@);
            }
            assert forall|message: MessageView|
                message_fits(message) && #[trigger] encode_message(message)
                    == bytes@ implies parse_message(bytes@) == Some(message) by {
                lemma_parse_of_message(message);
            }
        }
        if expect_key(bytes, 0, "Bonk") == Some(total) {
            return Ok(Message::Bonk);
        }
        if expect_key(bytes, 0, "RequestPeers") == Some(total) {
            return Ok(Message::RequestPeers);
        }
        let pos0: usize = match read_head(bytes, 0) {
            Some((Head::Pairs(1), at)) => at,
            _ => {
                return Err(BonkError::Serialization);
            },
        };
        match read_array_field(bytes, pos0, "Handshake") {
            Some((key, end)) => {
                if end != total {
                    return Err(BonkError::Serialization);
                }
                return match to_array_32(key.as_slice()) {
                    Some(key) => Ok(Message::Handshake(key)),
                    None => Err(BonkError::Serialization),
                };
            },
            None => {},
        }
        match read_peer_field(bytes, pos0, "PublishPeer") {
            Some((info, end)) => {
                return if end == total {
                    Ok(Message::PublishPeer(info))
                } else {
                    Err(BonkError::Serialization)
                };
            },
            None => {},
        }
        match read_signal_field(bytes, pos0, "Broadcast") {
            Some((signal, end)) => {
                if end == total {
                    Ok(Message::Broadcast(signal))
                } else {
                    Err(BonkError::Serialization)
                }
            },
            None => Err(BonkError::Serialization),
        }
    }
}

} // verus!
