//! Messages: short texts that travel between the tasks and, as UTF-8, over MQTT.

use vstd::prelude::*;
use vstd::utf8::{decode_utf8, encode_utf8, valid_utf8};

verus! {

/// The number of bytes that a message can take up as UTF-8.
pub const MESSAGE_CAPACITY: usize = 128;

/// `heapless::Vec`: a vector with a fixed capacity.
#[verifier::external_type_specification]
#[verifier::external_body]
#[verifier::reject_recursive_types(T)]
pub struct ExVec<T, const N: usize>(heapless::Vec<T, N>);

/// `heapless::String`: a text with a fixed capacity.
#[verifier::external_type_specification]
#[verifier::external_body]
pub struct ExString<const N: usize>(heapless::String<N>);

/// `core::str::Utf8Error`: the reason why bytes are not UTF-8.
#[verifier::external_type_specification]
#[verifier::external_body]
pub struct ExUtf8Error(core::str::Utf8Error);

/// The bytes that a buffer holds, in their order.
pub uninterp spec fn buffer_bytes(buffer: heapless::Vec<u8, MESSAGE_CAPACITY>) -> Seq<u8>;

/// The characters that a message holds, in their order.
pub uninterp spec fn message_text(message: heapless::String<MESSAGE_CAPACITY>) -> Seq<char>;

/// Calls `heapless::Vec::new`: the new buffer is empty.
#[verifier::external_body]
fn empty_buffer() -> (buffer: heapless::Vec<u8, MESSAGE_CAPACITY>)
    ensures
        buffer_bytes(buffer) == Seq::<u8>::empty(),
{
    heapless::Vec::new()
}

/// Calls `heapless::Vec::extend_from_slice`: the bytes are appended where all of them fit into
/// the buffer; otherwise the call fails and the buffer stays as it was.
#[verifier::external_body]
fn append(buffer: &mut heapless::Vec<u8, MESSAGE_CAPACITY>, bytes: &[u8]) -> (appended: Result<(), ()>)
    ensures
        appended is Ok <==> buffer_bytes(*old(buffer)).len() + bytes@.len() <= MESSAGE_CAPACITY,
        buffer_bytes(*final(buffer)) == if appended is Ok {
            buffer_bytes(*old(buffer)) + bytes@
        } else {
            buffer_bytes(*old(buffer))
        },
{
    buffer.extend_from_slice(bytes)
}

/// Calls `heapless::String::from_utf8`: it fails exactly where the buffer does not hold UTF-8;
/// otherwise the text is the one that the bytes encode.
#[verifier::external_body]
fn into_text(buffer: heapless::Vec<u8, MESSAGE_CAPACITY>) -> (text: Result<heapless::String<MESSAGE_CAPACITY>, core::str::Utf8Error>)
    ensures
        text is Ok <==> valid_utf8(buffer_bytes(buffer)),
        text matches Ok(text) ==> message_text(text) == decode_utf8(buffer_bytes(buffer)),
{
    heapless::String::from_utf8(buffer)
}

/// Calls `as_bytes` on a `heapless::String`: the UTF-8 encoding of the text, which is never
/// longer than the capacity.
#[verifier::external_body]
fn text_bytes(message: &heapless::String<MESSAGE_CAPACITY>) -> (bytes: &[u8])
    ensures
        bytes@ == encode_utf8(message_text(*message)),
        bytes@.len() <= MESSAGE_CAPACITY,
{
    message.as_bytes()
}

/// Why a payload is not a message.
#[derive(Clone, Copy, Debug, PartialEq, Eq, Structural)]
pub enum MessageError {
    /// It is longer than a message can be.
    TooLong,
    /// It is not UTF-8.
    NotUtf8,
}

/// The text of the message that a payload is, or the reason why it is none.
pub open spec fn decoded(payload: Seq<u8>) -> Result<Seq<char>, MessageError> {
    if payload.len() > MESSAGE_CAPACITY {
        Err(MessageError::TooLong)
    } else if !valid_utf8(payload) {
        Err(MessageError::NotUtf8)
    } else {
        Ok(decode_utf8(payload))
    }
}

/// The text of a message, where there is one.
pub open spec fn text_of(message: Result<heapless::String<MESSAGE_CAPACITY>, MessageError>) -> Result<Seq<char>, MessageError> {
    match message {
        Ok(message) => Ok(message_text(message)),
        Err(error) => Err(error),
    }
}

/// The message that a payload is.
pub fn decode_message(payload: &[u8]) -> (message: Result<heapless::String<MESSAGE_CAPACITY>, MessageError>)
    ensures
        text_of(message) == decoded(payload@),
        message is Ok <==> payload@.len() <= 128 && valid_utf8(payload@),
        message matches Ok(message) ==> message_text(message) == decode_utf8(payload@),
        message matches Err(error) ==> (error == MessageError::TooLong <==> payload@.len() > 128),
{
    let mut buffer = empty_buffer();
    match append(&mut buffer, payload) {
        Ok(()) => {
            assert(buffer_bytes(buffer) == payload@);
            match into_text(buffer) {
                Ok(message) => Ok(message),
                Err(_) => Err(MessageError::NotUtf8),
            }
        },
        Err(()) => Err(MessageError::TooLong),
    }
}

/// The payload by which a message is sent.
pub fn encode_message(message: &heapless::String<MESSAGE_CAPACITY>) -> (payload: &[u8])
    ensures
        payload@ == encode_utf8(message_text(*message)),
        decoded(payload@) == Ok::<Seq<char>, MessageError>(message_text(*message)),
{
    proof {
        lemma_text_survives(message_text(*message));
    }
    text_bytes(message)
}

/// A text that fits into a message comes back from the payload that encodes it.
pub proof fn lemma_text_survives(text: Seq<char>)
    ensures
        encode_utf8(text).len() <= 128 ==> decoded(encode_utf8(text)) == Ok::<
            Seq<char>,
            MessageError,
        >(text),
{
    vstd::utf8::encode_utf8_valid_utf8(text);
    vstd::utf8::encode_utf8_decode_utf8(text);
}

/// Different payloads are never taken for the same message.
pub proof fn lemma_payloads_stay_apart(first: Seq<u8>, second: Seq<u8>)
    requires
        decoded(first) is Ok,
        decoded(first) == decoded(second),
    ensures
        first == second,
{
    vstd::utf8::decode_utf8_encode_utf8(first);
    vstd::utf8::decode_utf8_encode_utf8(second);
}

/// A payload is refused exactly where it is longer than 128 bytes or is not UTF-8, the first of
/// these being the reason where both hold; any other payload is the text that it encodes.
pub proof fn lemma_what_a_payload_is(payload: Seq<u8>)
    ensures
        decoded(payload) is Ok <==> payload.len() <= 128 && valid_utf8(payload),
        decoded(payload) matches Ok(text) ==> encode_utf8(text) == payload,
        decoded(payload) == Err::<Seq<char>, MessageError>(MessageError::TooLong) <==> payload.len()
            > 128,
        decoded(payload) == Err::<Seq<char>, MessageError>(MessageError::NotUtf8) <==> payload.len()
            <= 128 && !valid_utf8(payload),
{
    if valid_utf8(payload) {
        vstd::utf8::decode_utf8_encode_utf8(payload);
    }
}

} // verus!
