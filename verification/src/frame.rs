//! Frames: how one message travels on a stream of bytes.
//!
//! A frame is the length of a payload as four bytes, most significant first,
//! and then the payload. A stream is held in memory as the bytes that were
//! written to it, or as the bytes that it still has to give before it ends.

use crate::error::ChatError;
use crate::message::{lemma_decode_inverts_encode, message_of, payload_of, MessageType, MessageView};
use crate::wire::{lemma_u32_be_round_trip, u32_be, u32_from_be};
use vstd::prelude::*;
use vstd::slice::slice_subrange;

verus! {

/// The longest payload that a frame can carry: the largest length that four
/// bytes can say.
pub const MAX_PAYLOAD: usize = 0xFFFF_FFFF;

/// The length of a payload as the prefix of its frame declares it.
pub open spec fn declared_length(payload_len: nat) -> u32
    recommends
        payload_len <= MAX_PAYLOAD,
{
    payload_len as u32
}

/// The frame that carries a payload: its length, most significant byte first,
/// and then the payload.
pub open spec fn frame_of(payload: Seq<u8>) -> Seq<u8>
    recommends
        payload.len() <= MAX_PAYLOAD,
{
    u32_be(declared_length(payload.len())) + payload
}

/// What reading one frame from a stream gives, where `stream` holds all the
/// bytes that arrive before the stream ends. The stream has ended too early
/// when it holds fewer than four bytes, or fewer behind them than they declare.
/// Bytes behind the frame belong to the frames that follow.
pub open spec fn received_from(stream: Seq<u8>) -> Result<MessageView, ChatError> {
    if stream.len() < 4 || stream.len() - 4 < u32_from_be(stream) {
        Err(ChatError::EndOfStream)
    } else {
        match message_of(stream.subrange(4, 4 + u32_from_be(stream))) {
            Some(message) => Ok(message),
            None => Err(ChatError::Decode),
        }
    }
}

/// The number of payload bytes that the four bytes at the start of `header`
/// declare, or `None` where `header` holds fewer than four.
pub fn payload_length(header: &[u8]) -> (length: Option<usize>)
    ensures
        header@.len() < 4 ==> length is None,
        header@.len() >= 4 ==> length == Some(u32_from_be(header@) as usize),
        header@.len() >= 4 ==> u32_from_be(header@) <= u32::MAX,
{
    if header.len() < 4 {
        None
    } else {
        let b0: u32 = header[0] as u32;
        let b1: u32 = header[1] as u32;
        let b2: u32 = header[2] as u32;
        let b3: u32 = header[3] as u32;
        let declared: u32 = b0 * 0x100_0000 + b1 * 0x1_0000 + b2 * 0x100 + b3;
        Some(declared as usize)
    }
}

/// The four bytes that a frame starts with where its payload has
/// `payload_len` bytes. A length that four bytes cannot say is refused.
pub fn length_prefix(payload_len: usize) -> (prefix: Result<Vec<u8>, ChatError>)
    ensures
        payload_len <= MAX_PAYLOAD ==> prefix is Ok && prefix->Ok_0@ == u32_be(
            declared_length(payload_len as nat),
        ),
        payload_len > MAX_PAYLOAD ==> prefix == Err::<Vec<u8>, ChatError>(
            ChatError::PayloadTooLong,
        ),
{
    if payload_len > MAX_PAYLOAD {
        return Err(ChatError::PayloadTooLong);
    }
    let declared: u32 = payload_len as u32;
    let mut prefix: Vec<u8> = Vec::new();
    prefix.push((declared / 0x100_0000) as u8);
    prefix.push((declared / 0x1_0000 % 0x100) as u8);
    prefix.push((declared / 0x100 % 0x100) as u8);
    prefix.push((declared % 0x100) as u8);
    assert(prefix@ =~= u32_be(declared));
    Ok(prefix)
}

/// Writes `payload` to `stream` as one frame, behind what the stream holds
/// already. A payload that is too long for a frame is refused, and nothing is
/// written.
pub fn write_frame(payload: &[u8], stream: &mut Vec<u8>) -> (written: Result<(), ChatError>)
    ensures
        payload@.len() <= MAX_PAYLOAD ==> written is Ok && final(stream)@ == old(stream)@
            + frame_of(payload@),
        payload@.len() > MAX_PAYLOAD ==> written == Err::<(), ChatError>(
            ChatError::PayloadTooLong,
        ) && final(stream)@ == old(stream)@,
{
    match length_prefix(payload.len()) {
        Ok(mut prefix) => {
            stream.append(&mut prefix);
            stream.extend_from_slice(payload);
            assert(stream@ =~= old(stream)@ + frame_of(payload@));
            Ok(())
        },
        Err(error) => Err(error),
    }
}

impl MessageType {
    /// Writes the message to `stream` as one frame, behind what the stream
    /// holds already. A message whose payload is too long for a frame is
    /// refused, and nothing is written.
    pub fn send_message(&self, stream: &mut Vec<u8>) -> (sent: Result<(), ChatError>)
        ensures
            payload_of(self@).len() <= MAX_PAYLOAD ==> sent is Ok && final(stream)@ == old(
                stream,
            )@ + frame_of(payload_of(self@)),
            payload_of(self@).len() > MAX_PAYLOAD ==> sent == Err::<(), ChatError>(
                ChatError::PayloadTooLong,
            ) && final(stream)@ == old(stream)@,
    {
        let payload = self.serialize();
        write_frame(payload.as_slice(), stream)
    }

    /// Reads one frame from the start of `stream`, which holds all the bytes
    /// that arrive before the stream ends, and decodes its payload.
    pub fn receive_message(stream: &[u8]) -> (received: Result<MessageType, ChatError>)
        ensures
            match received_from(stream@) {
                Ok(message) => received is Ok && received->Ok_0@ == message,
                Err(error) => received == Err::<MessageType, ChatError>(error),
            },
    {
        let length = match payload_length(stream) {
            Some(length) => length,
            None => {
                return Err(ChatError::EndOfStream);
            },
        };
        if stream.len() - 4 < length {
            return Err(ChatError::EndOfStream);
        }
        let payload = slice_subrange(stream, 4, 4 + length);
        let payload = vstd::slice::slice_to_vec(payload);
        MessageType::deserialize_from_bytes(&payload)
    }
}

/// A frame declares the length of its payload, and the payload stands behind
/// the four bytes, whatever follows the frame.
pub proof fn lemma_frame_holds_payload(payload: Seq<u8>, following: Seq<u8>)
    requires
        payload.len() <= MAX_PAYLOAD,
    ensures
        (frame_of(payload) + following).len() == 4 + payload.len() + following.len(),
        u32_from_be(frame_of(payload) + following) == payload.len(),
        (frame_of(payload) + following).subrange(4, 4 + payload.len() as int) == payload,
{
    let stream = frame_of(payload) + following;
    let declared = declared_length(payload.len());
    lemma_u32_be_round_trip(declared);
    assert(u32_from_be(stream) == u32_from_be(u32_be(declared)));
    assert(stream.subrange(4, 4 + payload.len() as int) =~= payload);
}

/// Frame integrity: a stream that starts with the frame of a message is read
/// as that message, whatever follows the frame. This holds of every message
/// that has a frame, that is, of every message that `send_message` accepts.
pub proof fn lemma_receive_inverts_send(message: MessageView, following: Seq<u8>)
    requires
        message.encodable(),
        payload_of(message).len() <= MAX_PAYLOAD,
    ensures
        received_from(frame_of(payload_of(message)) + following) == Ok::<MessageView, ChatError>(
            message,
        ),
{
    let payload = payload_of(message);
    lemma_frame_holds_payload(payload, following);
    lemma_decode_inverts_encode(message, Seq::empty());
    assert(payload + Seq::<u8>::empty() =~= payload);
}

/// Truncated frame: a stream that holds fewer bytes behind its first four than
/// these declare is read as ended too early; nothing of what arrived is
/// decoded.
pub proof fn lemma_short_stream_is_end_of_stream(stream: Seq<u8>)
    requires
        stream.len() >= 4,
        stream.len() - 4 < u32_from_be(stream),
    ensures
        received_from(stream) == Err::<MessageView, ChatError>(ChatError::EndOfStream),
{
}

/// Truncated frame: a stream that ends inside a frame is read as ended too
/// early, whatever the frame carries and wherever it was cut.
pub proof fn lemma_truncated_frame_is_end_of_stream(payload: Seq<u8>, arrived: int)
    requires
        payload.len() <= MAX_PAYLOAD,
        0 <= arrived < frame_of(payload).len(),
    ensures
        received_from(frame_of(payload).subrange(0, arrived)) == Err::<MessageView, ChatError>(
            ChatError::EndOfStream,
        ),
{
    let stream = frame_of(payload).subrange(0, arrived);
    let declared = declared_length(payload.len());
    lemma_u32_be_round_trip(declared);
    if arrived >= 4 {
        assert(u32_from_be(stream) == u32_from_be(u32_be(declared)));
    }
}

} // verus!
