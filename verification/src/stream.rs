//! Messages on a byte stream: each message in a frame of its own.

use crate::codec::{encode_message, lemma_parse_of_message, message_fits, parse_message};
use crate::endian::lemma_be32_roundtrip;
use crate::error::BonkError;
use crate::frame::{decode, encode, first_frame, frame_bytes, lemma_frame_exact};
use crate::message::{Message, MessageView};
use crate::session::message_views;
use vstd::prelude::*;

verus! {

/// The frame that carries `message`.
pub open spec fn message_frame(message: MessageView) -> Seq<u8> {
    frame_bytes(encode_message(message))
}

/// What a reader makes of the head of `stream` under the limit `max`: the
/// first message and the bytes its frame took, `MalformedFrame` where no
/// whole frame within the limit stands there, `Serialization` where the
/// frame's payload is no message.
pub open spec fn first_message(stream: Seq<u8>, max: nat) -> Result<(MessageView, nat), BonkError> {
    match first_frame(stream, max) {
        Some((payload, used)) => match parse_message(payload) {
            Some(message) => Ok((message, used)),
            None => Err(BonkError::Serialization),
        },
        None => Err(BonkError::MalformedFrame),
    }
}

/// A message that was written to a stream is read back from it, whatever
/// follows, provided its encoding is within the reader's limit.
pub proof fn lemma_read_of_written(message: MessageView, rest: Seq<u8>, max: nat)
    requires
        message_fits(message),
        encode_message(message).len() <= max,
        max <= u32::MAX,
    ensures
        first_message(message_frame(message) + rest, max) == Ok::<(MessageView, nat), BonkError>(
            (message, message_frame(message).len()),
        ),
{
    let payload = encode_message(message);
    let stream = message_frame(message) + rest;
    assert(first_frame(stream, max) == Some((payload, (4 + payload.len()) as nat))) by {
        lemma_frame_exact(payload, rest, max);
    }
    assert(parse_message(payload) == Some(message)) by {
        lemma_parse_of_message(message);
    }
    assert(message_frame(message).len() == 4 + payload.len()) by {
        lemma_be32_roundtrip(payload.len());
    }
}

impl Message {
    /// Appends the frame of this message to `writer`.
    ///
    /// Fails with `WriterFailure`, and writes nothing, exactly when the
    /// encoding is too long for a frame.
    pub fn write_framed(&self, writer: &mut Vec<u8>) -> (r: Result<(), BonkError>)
        ensures
            message_fits(self@),
            encode_message(self@).len() <= u32::MAX ==> r is Ok && final(writer)@ == old(writer)@
                + message_frame(self@),
            encode_message(self@).len() > u32::MAX ==> r == Err::<(), BonkError>(
                BonkError::WriterFailure,
            ) && final(writer)@ == old(writer)@,
    {
        let payload = self.encode();
        match encode(payload.as_slice()) {
            Ok(framed) => {
                writer.extend_from_slice(framed.as_slice());
                Ok(())
            },
            Err(e) => Err(e),
        }
    }

    /// Reads the first message off the head of `reader`.
    ///
    /// Returns the message and the number of bytes consumed. The length
    /// that the frame declares is held against `max` before its payload is
    /// looked at.
    pub fn read_framed(reader: &[u8], max: u32) -> (r: Result<(Message, usize), BonkError>)
        ensures
            match first_message(reader@, max as nat) {
                Ok((message, used)) => r is Ok && r->Ok_0.0@ == message && r->Ok_0.1 == used,
                Err(e) => r == Err::<(Message, usize), BonkError>(e),
            },
    {
        match decode(reader, max) {
            Ok((payload, used)) => match Message::decode(payload.as_slice()) {
                Ok(message) => Ok((message, used)),
                Err(e) => Err(e),
            },
            Err(e) => Err(e),
        }
    }
}

/// Whether the encoding of `message` is short enough for a frame.
pub open spec fn frameable(message: MessageView) -> bool {
    encode_message(message).len() <= u32::MAX
}

/// Whether every one of `messages` is short enough for a frame.
pub open spec fn all_frameable(messages: Seq<MessageView>) -> bool {
    forall|i: int| 0 <= i < messages.len() ==> frameable(#[trigger] messages[i])
}

/// The frames of `messages`, one after the other.
pub open spec fn frames_of(messages: Seq<MessageView>) -> Seq<u8>
    decreases messages.len(),
{
    if messages.len() == 0 {
        Seq::empty()
    } else {
        message_frame(messages[0]) + frames_of(messages.skip(1))
    }
}

/// The first `count` messages on `stream` and the bytes their frames take,
/// where that many stand there whole and within the limit.
pub open spec fn messages_on(stream: Seq<u8>, max: nat, count: nat) -> Option<
    (Seq<MessageView>, nat),
>
    decreases count,
{
    if count == 0 {
        Some((Seq::empty(), 0))
    } else {
        match first_message(stream, max) {
            Ok((message, used)) => match messages_on(
                stream.skip(used as int),
                max,
                (count - 1) as nat,
            ) {
                Some((tail, more)) => Some((seq![message] + tail, used + more)),
                None => None,
            },
            Err(_) => None,
        }
    }
}

/// Order is kept on a connection: messages that were written one after the
/// other are read back as the same messages in the same order, each within
/// the reader's limit.
pub proof fn lemma_order_is_kept(messages: Seq<MessageView>, rest: Seq<u8>, max: nat)
    requires
        max <= u32::MAX,
        forall|i: int|
            0 <= i < messages.len() ==> message_fits(#[trigger] messages[i]) && encode_message(
                messages[i],
            ).len() <= max,
    ensures
        messages_on(frames_of(messages) + rest, max, messages.len()) == Some(
            (messages, frames_of(messages).len()),
        ),
    decreases messages.len(),
{
    if messages.len() > 0 {
        let first = messages[0];
        let others = messages.skip(1);
        let stream = frames_of(messages) + rest;
        assert(stream =~= message_frame(first) + (frames_of(others) + rest));
        lemma_read_of_written(first, frames_of(others) + rest, max);
        let used = message_frame(first).len();
        assert(stream.skip(used as int) =~= frames_of(others) + rest);
        assert forall|i: int| 0 <= i < others.len() implies message_fits(#[trigger] others[i])
            && encode_message(others[i]).len() <= max by {
            assert(others[i] == messages[i + 1]);
        }
        lemma_order_is_kept(others, rest, max);
        assert(seq![first] + others =~= messages);
    }
}

/// The frames of `messages`, one after the other, ready to be written.
///
/// Fails with `WriterFailure` exactly when one of the messages is too long
/// for a frame.
pub fn frames(messages: &[Message]) -> (r: Result<Vec<u8>, BonkError>)
    ensures
        all_frameable(message_views(messages@)) ==> r is Ok && r->Ok_0@ == frames_of(
            message_views(messages@),
        ),
        !all_frameable(message_views(messages@)) ==> r == Err::<Vec<u8>, BonkError>(
            BonkError::WriterFailure,
        ),
{
    let ghost views = message_views(messages@);
    let mut out: Vec<u8> = Vec::new();
    let mut i: usize = 0;
    assert(views.skip(0) =~= views);
    while i < messages.len()
        invariant
            i <= messages@.len(),
            views == message_views(messages@),
            forall|j: int| 0 <= j < i ==> frameable(#[trigger] views[j]),
            frames_of(views) =~= out@ + frames_of(views.skip(i as int)),
        decreases messages@.len() - i,
    {
        let ghost before = out@;
        let ghost remaining = views.skip(i as int);
        assert(views[i as int] == messages@[i as int]@);
        match messages[i].write_framed(&mut out) {
            Ok(()) => {},
            Err(e) => {
                return Err(e);
            },
        }
        i += 1;
        proof {
            assert(remaining[0] == messages@[i - 1]@);
            assert(remaining.skip(1) =~= views.skip(i as int));
            assert(out@ + frames_of(views.skip(i as int)) =~= before + frames_of(remaining));
        }
    }
    assert(out@ =~= frames_of(views));
    Ok(out)
}

} // verus!
