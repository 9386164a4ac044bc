//! The messages that clients exchange and their encoding as a payload.
//!
//! A payload starts with a four-byte tag that names the variant and goes on
//! with the variant's fields in order. A field is its length in bytes, as eight
//! bytes, and then the bytes themselves: the UTF-8 form of a string, or a blob
//! as it stands. All integers are little-endian. The fields are written and read
//! by `bincode`.

use crate::error::ChatError;
use crate::wire::{
    lemma_u32_le_round_trip, lemma_u64_le_round_trip, u32_from_le, u32_le, u64_from_le, u64_le,
};
use vstd::prelude::*;
use vstd::slice::slice_subrange;
use vstd::utf8::*;

verus! {

/// One message of the chat.
#[derive(Debug, Clone, PartialEq, Eq)]
pub enum MessageType {
    /// A line of text.
    Text(String),
    /// The bytes of an image.
    Image(Vec<u8>),
    /// A file: its name and its bytes.
    File { name: String, content: Vec<u8> },
}

/// What a message is, as mathematical values.
pub enum MessageView {
    Text(Seq<char>),
    Image(Seq<u8>),
    File { name: Seq<char>, content: Seq<u8> },
}

impl View for MessageType {
    type V = MessageView;

    open spec fn view(&self) -> MessageView {
        match self {
            MessageType::Text(body) => MessageView::Text(body@),
            MessageType::Image(bytes) => MessageView::Image(bytes@),
            MessageType::File { name, content } => MessageView::File {
                name: name@,
                content: content@,
            },
        }
    }
}

/// The tag of a text message.
pub const TAG_TEXT: u32 = 0;

/// The tag of an image message.
pub const TAG_IMAGE: u32 = 1;

/// The tag of a file message.
pub const TAG_FILE: u32 = 2;

/// A blob as a field: its length, then its bytes.
pub open spec fn blob_field(bytes: Seq<u8>) -> Seq<u8> {
    u64_le(bytes.len() as u64) + bytes
}

/// A string as a field: the blob of its UTF-8 form.
pub open spec fn text_field(text: Seq<char>) -> Seq<u8> {
    blob_field(encode_utf8(text))
}

/// The payload that stands for a message.
pub open spec fn payload_of(message: MessageView) -> Seq<u8> {
    match message {
        MessageView::Text(body) => u32_le(TAG_TEXT) + text_field(body),
        MessageView::Image(bytes) => u32_le(TAG_IMAGE) + blob_field(bytes),
        MessageView::File { name, content } => u32_le(TAG_FILE) + text_field(name) + blob_field(
            content,
        ),
    }
}

/// Whether `input` starts with a whole blob field: eight bytes of length, and
/// at least that many bytes behind them.
pub open spec fn starts_with_blob(input: Seq<u8>) -> bool {
    input.len() >= 8 && u64_from_le(input) <= input.len() - 8
}

/// The bytes of the blob field that `input` starts with.
pub open spec fn leading_blob(input: Seq<u8>) -> Seq<u8>
    recommends
        starts_with_blob(input),
{
    input.subrange(8, 8 + u64_from_le(input))
}

/// Whether `input` starts with a whole string field: a blob field whose bytes
/// are valid UTF-8.
pub open spec fn starts_with_text(input: Seq<u8>) -> bool {
    starts_with_blob(input) && valid_utf8(leading_blob(input))
}

/// The string of the string field that `input` starts with.
pub open spec fn leading_text(input: Seq<u8>) -> Seq<char>
    recommends
        starts_with_text(input),
{
    decode_utf8(leading_blob(input))
}

/// What is left of `input` behind the field that it starts with.
pub open spec fn behind_field(input: Seq<u8>) -> Seq<u8>
    recommends
        starts_with_blob(input),
{
    input.subrange(8 + u64_from_le(input), input.len() as int)
}

/// The message that a payload stands for, if it stands for one. Bytes behind
/// the last field are not looked at.
pub open spec fn message_of(payload: Seq<u8>) -> Option<MessageView> {
    if payload.len() < 4 {
        None
    } else {
        let tag = u32_from_le(payload);
        let fields = payload.subrange(4, payload.len() as int);
        if tag == TAG_TEXT && starts_with_text(fields) {
            Some(MessageView::Text(leading_text(fields)))
        } else if tag == TAG_IMAGE && starts_with_blob(fields) {
            Some(MessageView::Image(leading_blob(fields)))
        } else if tag == TAG_FILE && starts_with_text(fields) && starts_with_blob(
            behind_field(fields),
        ) {
            Some(
                MessageView::File {
                    name: leading_text(fields),
                    content: leading_blob(behind_field(fields)),
                },
            )
        } else {
            None
        }
    }
}

impl MessageView {
    /// Whether every field is short enough for its length to be written as a
    /// `u64`; this holds of the view of every message in memory.
    pub open spec fn encodable(self) -> bool {
        match self {
            MessageView::Text(body) => encode_utf8(body).len() <= u64::MAX,
            MessageView::Image(bytes) => bytes.len() <= u64::MAX,
            MessageView::File { name, content } => encode_utf8(name).len() <= u64::MAX
                && content.len() <= u64::MAX,
        }
    }
}

/// A blob field is eight bytes longer than the blob.
pub proof fn lemma_blob_field_len(bytes: Seq<u8>)
    ensures
        blob_field(bytes).len() == 8 + bytes.len(),
{
}

/// A blob field is read back as the blob, whatever follows it, and what
/// follows it is found behind it.
pub proof fn lemma_blob_field_read_back(bytes: Seq<u8>, rest: Seq<u8>)
    requires
        bytes.len() <= u64::MAX,
    ensures
        starts_with_blob(blob_field(bytes) + rest),
        leading_blob(blob_field(bytes) + rest) == bytes,
        behind_field(blob_field(bytes) + rest) == rest,
{
    let input = blob_field(bytes) + rest;
    let length = bytes.len() as u64;
    lemma_u64_le_round_trip(length);
    assert(u64_from_le(input) == u64_from_le(u64_le(length)));
    assert(leading_blob(input) =~= bytes);
    assert(behind_field(input) =~= rest);
}

/// A string field is read back as the string, whatever follows it.
pub proof fn lemma_text_field_read_back(text: Seq<char>, rest: Seq<u8>)
    requires
        encode_utf8(text).len() <= u64::MAX,
    ensures
        starts_with_text(text_field(text) + rest),
        leading_text(text_field(text) + rest) == text,
        behind_field(text_field(text) + rest) == rest,
{
    lemma_blob_field_read_back(encode_utf8(text), rest);
    encode_utf8_valid_utf8(text);
    encode_utf8_decode_utf8(text);
}

/// A tag is read back as the tag, whatever follows it, and what follows it is
/// found behind its four bytes.
pub proof fn lemma_tag_read_back(tag: u32, rest: Seq<u8>)
    ensures
        (u32_le(tag) + rest).len() == 4 + rest.len(),
        u32_from_le(u32_le(tag) + rest) == tag,
        (u32_le(tag) + rest).subrange(4, 4 + rest.len() as int) == rest,
{
    let input = u32_le(tag) + rest;
    lemma_u32_le_round_trip(tag);
    assert(u32_from_le(input) == u32_from_le(u32_le(tag)));
    assert(input.subrange(4, 4 + rest.len() as int) =~= rest);
}

/// Round trip: the payload of a message decodes to that message, and to no
/// other, whatever bytes follow the payload.
pub proof fn lemma_decode_inverts_encode(message: MessageView, trailing: Seq<u8>)
    requires
        message.encodable(),
    ensures
        message_of(payload_of(message) + trailing) == Some(message),
{
    let payload = payload_of(message) + trailing;
    match message {
        MessageView::Text(body) => {
            let fields = text_field(body) + trailing;
            assert(payload =~= u32_le(TAG_TEXT) + fields);
            lemma_tag_read_back(TAG_TEXT, fields);
            lemma_text_field_read_back(body, trailing);
        },
        MessageView::Image(bytes) => {
            let fields = blob_field(bytes) + trailing;
            assert(payload =~= u32_le(TAG_IMAGE) + fields);
            lemma_tag_read_back(TAG_IMAGE, fields);
            lemma_blob_field_read_back(bytes, trailing);
        },
        MessageView::File { name, content } => {
            let fields = text_field(name) + (blob_field(content) + trailing);
            assert(payload =~= u32_le(TAG_FILE) + fields);
            lemma_tag_read_back(TAG_FILE, fields);
            lemma_text_field_read_back(name, blob_field(content) + trailing);
            lemma_blob_field_read_back(content, trailing);
        },
    }
}

/// `bincode::ErrorKind`, why `bincode` refused to write or to read. Nothing is
/// looked at inside it.
#[verifier::external_type_specification]
#[verifier::external_body]
pub struct ExBincodeErrorKind(bincode::ErrorKind);

/// `bincode::serialize` on a `u32`. With the crate's default options an integer
/// is written at its fixed width, least significant byte first, and writing to
/// memory does not fail.
#[verifier::external_body]
fn write_u32(value: u32) -> (written: Result<Vec<u8>, bincode::Error>)
    ensures
        written is Ok,
        written->Ok_0@ == u32_le(value),
{
    bincode::serialize(&value)
}

/// `bincode::serialize` on a `str`: the length of its UTF-8 form as a `u64`,
/// then that form. Writing to memory does not fail.
#[verifier::external_body]
fn write_text(text: &str) -> (written: Result<Vec<u8>, bincode::Error>)
    ensures
        written is Ok,
        written->Ok_0@ == text_field(text@),
{
    bincode::serialize(text)
}

/// `bincode::serialize` on a slice of bytes: the number of bytes as a `u64`,
/// then the bytes one by one. Writing to memory does not fail.
#[verifier::external_body]
fn write_blob(bytes: &[u8]) -> (written: Result<Vec<u8>, bincode::Error>)
    ensures
        written is Ok,
        written->Ok_0@ == blob_field(bytes@),
{
    bincode::serialize(bytes)
}

/// `bincode::deserialize` to a `u32`: the first four bytes, least significant
/// first. It fails exactly when there are fewer than four; bytes behind them
/// are left alone.
#[verifier::external_body]
fn read_u32(input: &[u8]) -> (read: Result<u32, bincode::Error>)
    ensures
        read is Ok <==> input@.len() >= 4,
        read is Ok ==> read->Ok_0 == u32_from_le(input@),
{
    bincode::deserialize::<u32>(input)
}

/// `bincode::deserialize` to a `String`: the string field that `input` starts
/// with. It fails exactly when the length is cut short, when fewer bytes follow
/// than the length says, or when they are not valid UTF-8.
#[verifier::external_body]
fn read_text(input: &[u8]) -> (read: Result<String, bincode::Error>)
    ensures
        read is Ok <==> starts_with_text(input@),
        read is Ok ==> read->Ok_0@ == leading_text(input@),
{
    bincode::deserialize::<String>(input)
}

/// `bincode::deserialize` to a `Vec<u8>`: the blob field that `input` starts
/// with. It fails exactly when the length is cut short or when fewer bytes
/// follow than the length says.
#[verifier::external_body]
fn read_blob(input: &[u8]) -> (read: Result<Vec<u8>, bincode::Error>)
    ensures
        read is Ok <==> starts_with_blob(input@),
        read is Ok ==> read->Ok_0@ == leading_blob(input@),
{
    bincode::deserialize::<Vec<u8>>(input)
}

/// The string field of `text`, written by `bincode`.
fn text_to_field(text: &str) -> (field: Vec<u8>)
    ensures
        field@ == text_field(text@),
        encode_utf8(text@).len() <= u64::MAX,
{
    let field = write_text(text).unwrap();
    proof {
        lemma_blob_field_len(encode_utf8(text@));
        assert(field@.len() == field.len());
    }
    field
}

/// The blob field of `bytes`, written by `bincode`.
fn blob_to_field(bytes: &[u8]) -> (field: Vec<u8>)
    ensures
        field@ == blob_field(bytes@),
        bytes@.len() <= u64::MAX,
{
    assert(bytes@.len() == bytes.len());
    write_blob(bytes).unwrap()
}

impl MessageType {
    /// Encodes the message as a payload.
    pub fn serialize(&self) -> (payload: Vec<u8>)
        ensures
            payload@ == payload_of(self@),
            self@.encodable(),
    {
        match self {
            MessageType::Text(body) => {
                let mut payload = write_u32(TAG_TEXT).unwrap();
                let mut field = text_to_field(body.as_str());
                payload.append(&mut field);
                payload
            },
            MessageType::Image(bytes) => {
                let mut payload = write_u32(TAG_IMAGE).unwrap();
                let mut field = blob_to_field(bytes.as_slice());
                payload.append(&mut field);
                payload
            },
            MessageType::File { name, content } => {
                let mut payload = write_u32(TAG_FILE).unwrap();
                let mut name_field = text_to_field(name.as_str());
                let mut content_field = blob_to_field(content.as_slice());
                payload.append(&mut name_field);
                payload.append(&mut content_field);
                payload
            },
        }
    }

    /// Decodes a payload. It is refused when it is cut short, when its tag
    /// names no variant, or when a string in it is not valid UTF-8; bytes behind
    /// the last field are not looked at.
    pub fn deserialize_from_bytes(input: &Vec<u8>) -> (decoded: Result<MessageType, ChatError>)
        ensures
            match message_of(input@) {
                Some(message) => decoded is Ok && decoded->Ok_0@ == message,
                None => decoded == Err::<MessageType, ChatError>(ChatError::Decode),
            },
    {
        let tag = match read_u32(input.as_slice()) {
            Ok(tag) => tag,
            Err(_) => {
                return Err(ChatError::Decode);
            },
        };
        let fields = slice_subrange(input.as_slice(), 4, input.len());
        if tag == TAG_TEXT {
            match read_text(fields) {
                Ok(body) => Ok(MessageType::Text(body)),
                Err(_) => Err(ChatError::Decode),
            }
        } else if tag == TAG_IMAGE {
            match read_blob(fields) {
                Ok(bytes) => Ok(MessageType::Image(bytes)),
                Err(_) => Err(ChatError::Decode),
            }
        } else if tag == TAG_FILE {
            match read_text(fields) {
                Ok(name) => {
                    proof {
                        decode_utf8_encode_utf8(leading_blob(fields@));
                    }
                    let behind = slice_subrange(fields, 8 + name.as_str().len(), fields.len());
                    match read_blob(behind) {
                        Ok(content) => Ok(MessageType::File { name, content }),
                        Err(_) => Err(ChatError::Decode),
                    }
                },
                Err(_) => Err(ChatError::Decode),
            }
        } else {
            Err(ChatError::Decode)
        }
    }
}

} // verus!
