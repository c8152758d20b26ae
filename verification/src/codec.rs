//! The frame codec: from a frame to its bytes on the wire and back.
//!
//! On the wire every frame is its body behind a four-byte length, so that a
//! reader always knows where one frame ends and the next begins.

use crate::bytes::{append, copy_range, same, starts_with};
use crate::decimal::{lemma_digits_end_is_run, parse_decimal, push_decimal};
use crate::digest::{is_digest_text, is_hex, is_hex_digit, DIGEST_LEN};
use crate::frame::{
    body_bytes, chat_tag, chunk_bytes, client_tag, departed_mark, encodable, end_tag, error_tag,
    file_tag, not_found_reason, parse_body, parse_chunk, parse_client, parse_failure, parse_text,
    said_mark, server_tag, unreadable_reason, FileError, Frame, FrameView, ProtocolError,
    CHUNK_HEADER_LEN,
};
use crate::packet::{Packet, PacketView};
use crate::text::{is_ascii_bytes, string_from_ascii, string_from_utf8};
use crate::wire::{be32, be32_value, lemma_be32_of_be32_value, push_be32, read_be32};
use vstd::prelude::*;
use vstd::slice::{slice_subrange, slice_to_vec};
use vstd::string::*;
use vstd::utf8::*;

verus! {

/// The number of bytes of the length in front of a frame.
pub const LENGTH_PREFIX_LEN: usize = 4;

/// The maximum length of a body that holds a chunk of the usual size and no
/// more: 4096 bytes of payload behind the 72 bytes in front of it.
pub const MAX_FRAME_LEN: u32 = 4168;

fn chat_tag_bytes() -> (tag: &'static [u8])
    ensures
        tag@ == chat_tag(),
{
    let text: &'static str = "CHAT/ ";
    proof {
        reveal_strlit("CHAT/ ");
        is_ascii_chars_encode_utf8(text@);
    }
    text.as_bytes()
}

fn file_tag_bytes() -> (tag: &'static [u8])
    ensures
        tag@ == file_tag(),
{
    let text: &'static str = "FILE/ ";
    proof {
        reveal_strlit("FILE/ ");
        is_ascii_chars_encode_utf8(text@);
    }
    text.as_bytes()
}

fn end_tag_bytes() -> (tag: &'static [u8])
    ensures
        tag@ == end_tag(),
{
    let text: &'static str = "END/";
    proof {
        reveal_strlit("END/");
        is_ascii_chars_encode_utf8(text@);
    }
    text.as_bytes()
}

fn server_tag_bytes() -> (tag: &'static [u8])
    ensures
        tag@ == server_tag(),
{
    let text: &'static str = "SERVER: ";
    proof {
        reveal_strlit("SERVER: ");
        is_ascii_chars_encode_utf8(text@);
    }
    text.as_bytes()
}

fn client_tag_bytes() -> (tag: &'static [u8])
    ensures
        tag@ == client_tag(),
{
    let text: &'static str = "CLIENT ";
    proof {
        reveal_strlit("CLIENT ");
        is_ascii_chars_encode_utf8(text@);
    }
    text.as_bytes()
}

fn said_mark_bytes() -> (mark: &'static [u8])
    ensures
        mark@ == said_mark(),
{
    let text: &'static str = ": ";
    proof {
        reveal_strlit(": ");
        is_ascii_chars_encode_utf8(text@);
    }
    text.as_bytes()
}

fn departed_mark_bytes() -> (mark: &'static [u8])
    ensures
        mark@ == departed_mark(),
{
    let text: &'static str = " disconnected.";
    proof {
        reveal_strlit(" disconnected.");
        is_ascii_chars_encode_utf8(text@);
    }
    text.as_bytes()
}

fn error_tag_bytes() -> (tag: &'static [u8])
    ensures
        tag@ == error_tag(),
{
    let text: &'static str = "ERROR/ ";
    proof {
        reveal_strlit("ERROR/ ");
        is_ascii_chars_encode_utf8(text@);
    }
    text.as_bytes()
}

fn not_found_reason_bytes() -> (reason: &'static [u8])
    ensures
        reason@ == not_found_reason(),
{
    let text: &'static str = "file not found";
    proof {
        reveal_strlit("file not found");
        is_ascii_chars_encode_utf8(text@);
    }
    text.as_bytes()
}

fn unreadable_reason_bytes() -> (reason: &'static [u8])
    ensures
        reason@ == unreadable_reason(),
{
    let text: &'static str = "file unreadable";
    proof {
        reveal_strlit("file unreadable");
        is_ascii_chars_encode_utf8(text@);
    }
    text.as_bytes()
}

fn is_hex_byte(byte: u8) -> (yes: bool)
    ensures
        yes == is_hex_digit(byte),
{
    (0x30 <= byte && byte <= 0x39) || (0x61 <= byte && byte <= 0x66)
}

/// Tells whether `sha` has the form of a digest.
pub fn has_digest_form(sha: &String) -> (yes: bool)
    ensures
        yes == is_digest_text(sha@),
{
    let bytes = sha.as_str().as_bytes();
    if bytes.len() != DIGEST_LEN {
        return false;
    }
    let mut i: usize = 0;
    while i < bytes.len()
        invariant
            i <= bytes@.len() == DIGEST_LEN,
            bytes@ == encode_utf8(sha@),
            forall|k: int| 0 <= k < i ==> is_hex_digit(#[trigger] bytes@[k]),
        decreases bytes@.len() - i,
    {
        if !is_hex_byte(bytes[i]) {
            return false;
        }
        i += 1;
    }
    true
}

fn text_body(tag: &[u8], text: &String) -> (body: Vec<u8>)
    ensures
        body@ == tag@ + encode_utf8(text@),
{
    let mut body: Vec<u8> = Vec::new();
    append(&mut body, tag);
    append(&mut body, text.as_str().as_bytes());
    body
}

fn chunk_body(packet: &Packet) -> (body: Vec<u8>)
    requires
        packet.data@.len() <= u32::MAX,
    ensures
        body@ == chunk_bytes(packet@),
{
    let mut body: Vec<u8> = Vec::new();
    push_be32(&mut body, packet.sequence_number);
    append(&mut body, packet.sha.as_str().as_bytes());
    push_be32(&mut body, packet.data.len() as u32);
    append(&mut body, packet.data.as_slice());
    body
}

/// Writes the body of `frame`: its bytes without the length in front.
pub fn encode_body(frame: &Frame) -> (body: Vec<u8>)
    requires
        frame matches Frame::Chunk(packet) ==> packet.data@.len() <= u32::MAX,
    ensures
        body@ == body_bytes(frame@),
{
    match frame {
        Frame::Chat(text) => text_body(chat_tag_bytes(), text),
        Frame::FileRequest(name) => text_body(file_tag_bytes(), name),
        Frame::End => slice_to_vec(end_tag_bytes()),
        Frame::Chunk(packet) => chunk_body(packet),
        Frame::Server(text) => text_body(server_tag_bytes(), text),
        Frame::Relay { id, text } => {
            let mut body: Vec<u8> = Vec::new();
            append(&mut body, client_tag_bytes());
            push_decimal(&mut body, *id);
            append(&mut body, said_mark_bytes());
            append(&mut body, text.as_str().as_bytes());
            body
        },
        Frame::Departure { id } => {
            let mut body: Vec<u8> = Vec::new();
            append(&mut body, client_tag_bytes());
            push_decimal(&mut body, *id);
            append(&mut body, departed_mark_bytes());
            body
        },
        Frame::Failed(error) => {
            let mut body: Vec<u8> = Vec::new();
            append(&mut body, error_tag_bytes());
            match error {
                FileError::NotFound => append(&mut body, not_found_reason_bytes()),
                FileError::Unreadable => append(&mut body, unreadable_reason_bytes()),
            }
            body
        },
    }
}

/// What an optional string holds, as plain values.
pub open spec fn text_of(text: Option<String>) -> Option<Seq<char>> {
    match text {
        Some(s) => Some(s@),
        None => None,
    }
}

/// What an optional frame holds, as plain values.
pub open spec fn frame_of(frame: Option<Frame>) -> Option<FrameView> {
    match frame {
        Some(f) => Some(f@),
        None => None,
    }
}

fn read_text(body: &[u8], from: usize) -> (text: Option<String>)
    requires
        from <= body@.len(),
    ensures
        text_of(text) == parse_text(body@.skip(from as int)),
{
    let bytes = copy_range(body, from, body.len());
    string_from_utf8(bytes)
}

fn read_chunk(body: &[u8]) -> (frame: Option<Frame>)
    ensures
        frame_of(frame) == parse_chunk(body@),
{
    if body.len() < CHUNK_HEADER_LEN {
        return None;
    }
    let mut i: usize = 4;
    while i < 68
        invariant
            4 <= i <= 68 <= body@.len(),
            forall|k: int| 4 <= k < i ==> is_hex_digit(#[trigger] body@[k]),
        decreases 68 - i,
    {
        if !is_hex_byte(body[i]) {
            assert(!is_hex_digit(body@.subrange(4, 68)[i - 4]));
            return None;
        }
        i += 1;
    }
    assert(is_hex(body@.subrange(4, 68)));
    let declared: u32 = read_be32(body, 68);
    if declared as usize != body.len() - CHUNK_HEADER_LEN {
        return None;
    }
    let sequence_number: u32 = read_be32(body, 0);
    let written = copy_range(body, 4, 68);
    proof {
        lemma_be32_of_be32_value(body@.subrange(0, 4));
        assert(is_ascii_bytes(written@)) by {
            assert forall|k: int| 0 <= k < written@.len() implies #[trigger] written@[k]
                < 0x80 by {
                assert(is_hex_digit(body@.subrange(4, 68)[k]));
            }
        }
    }
    let sha = string_from_ascii(written);
    let data = copy_range(body, CHUNK_HEADER_LEN, body.len());
    Some(Frame::Chunk(Packet::new(sequence_number, data, sha)))
}

fn read_client(rest: &[u8]) -> (frame: Option<Frame>)
    ensures
        frame_of(frame) == parse_client(rest@),
{
    match parse_decimal(rest, 0) {
        None => None,
        Some((id, end)) => {
            proof {
                lemma_digits_end_is_run(rest@, 0);
            }
            let tail = slice_subrange(rest, end, rest.len());
            if starts_with(tail, said_mark_bytes()) {
                match read_text(tail, 2) {
                    Some(text) => Some(Frame::Relay { id, text }),
                    None => None,
                }
            } else if same(tail, departed_mark_bytes()) {
                Some(Frame::Departure { id })
            } else {
                None
            }
        },
    }
}

fn read_failure(reason: &[u8]) -> (frame: Option<Frame>)
    ensures
        frame_of(frame) == parse_failure(reason@),
{
    if same(reason, not_found_reason_bytes()) {
        Some(Frame::Failed(FileError::NotFound))
    } else if same(reason, unreadable_reason_bytes()) {
        Some(Frame::Failed(FileError::Unreadable))
    } else {
        None
    }
}

/// Reads the frame that `body` stands for, `body` being the bytes behind
/// the length. Gives nothing where they have the form of no frame.
pub fn decode_body(body: &[u8]) -> (frame: Option<Frame>)
    ensures
        frame_of(frame) == parse_body(body@),
{
    if starts_with(body, chat_tag_bytes()) {
        match read_text(body, 6) {
            Some(text) => Some(Frame::Chat(text)),
            None => None,
        }
    } else if starts_with(body, file_tag_bytes()) {
        match read_text(body, 6) {
            Some(name) => Some(Frame::FileRequest(name)),
            None => None,
        }
    } else if same(body, end_tag_bytes()) {
        Some(Frame::End)
    } else if starts_with(body, server_tag_bytes()) {
        match read_text(body, 8) {
            Some(text) => Some(Frame::Server(text)),
            None => None,
        }
    } else if starts_with(body, client_tag_bytes()) {
        let rest = slice_subrange(body, 7, body.len());
        read_client(rest)
    } else if starts_with(body, error_tag_bytes()) {
        let reason = slice_subrange(body, 7, body.len());
        read_failure(reason)
    } else {
        read_chunk(body)
    }
}

/// The bytes on the wire for `frame` under the maximum `max`, or why it
/// cannot be written.
pub open spec fn encoded(frame: FrameView, max: u32) -> Result<Seq<u8>, ProtocolError> {
    if !encodable(frame) {
        Err(ProtocolError::Malformed)
    } else if body_bytes(frame).len() > max {
        Err(ProtocolError::TooLarge)
    } else {
        Ok(be32(body_bytes(frame).len() as u32) + body_bytes(frame))
    }
}

/// The frame that the bytes `wire` stand for under the maximum `max`, or why
/// they stand for none. `wire` is to hold one frame exactly: its length, then
/// as many bytes as the length says.
pub open spec fn decoded(wire: Seq<u8>, max: u32) -> Result<FrameView, ProtocolError> {
    if wire.len() < LENGTH_PREFIX_LEN {
        Err(ProtocolError::Malformed)
    } else if be32_value(wire) > max {
        Err(ProtocolError::TooLarge)
    } else if wire.len() != LENGTH_PREFIX_LEN + be32_value(wire) {
        Err(ProtocolError::Malformed)
    } else {
        match parse_body(wire.skip(4)) {
            Some(frame) => Ok(frame),
            None => Err(ProtocolError::Malformed),
        }
    }
}

/// The codec, with the maximum length that it accepts for the body of a
/// frame.
#[derive(Debug, Clone, Copy, PartialEq, Eq)]
pub struct FrameCodec {
    pub max_frame_len: u32,
}

impl FrameCodec {
    /// A codec that accepts bodies of up to `max_frame_len` bytes.
    pub fn new(max_frame_len: u32) -> (codec: Self)
        ensures
            codec.max_frame_len == max_frame_len,
    {
        FrameCodec { max_frame_len }
    }

    /// Writes `frame` as it travels: the length of its body, then the body.
    ///
    /// Fails with `Malformed` on a chunk whose digest has not the fixed
    /// form, and with `TooLarge` on a frame whose body is longer than the
    /// maximum.
    pub fn encode(&self, frame: &Frame) -> (wire: Result<Vec<u8>, ProtocolError>)
        ensures
            match wire {
                Ok(bytes) => encoded(frame@, self.max_frame_len) == Ok::<Seq<u8>, ProtocolError>(
                    bytes@,
                ),
                Err(error) => encoded(frame@, self.max_frame_len) == Err::<
                    Seq<u8>,
                    ProtocolError,
                >(error),
            },
    {
        if let Frame::Chunk(packet) = frame {
            if !has_digest_form(&packet.sha) {
                return Err(ProtocolError::Malformed);
            }
            if packet.data.len() > self.max_frame_len as usize {
                assert(chunk_bytes(packet@).len() >= packet.data@.len());
                return Err(ProtocolError::TooLarge);
            }
        }
        let body = encode_body(frame);
        if body.len() > self.max_frame_len as usize {
            return Err(ProtocolError::TooLarge);
        }
        let mut wire: Vec<u8> = Vec::new();
        push_be32(&mut wire, body.len() as u32);
        append(&mut wire, body.as_slice());
        Ok(wire)
    }

    /// Reads the one frame that `wire` holds.
    ///
    /// Fails with `TooLarge` where the length in front is over the maximum,
    /// and with `Malformed` where `wire` is cut short, holds more than the
    /// length says, or holds what is no frame.
    pub fn decode(&self, wire: &[u8]) -> (frame: Result<Frame, ProtocolError>)
        ensures
            match frame {
                Ok(f) => decoded(wire@, self.max_frame_len) == Ok::<FrameView, ProtocolError>(
                    f@,
                ),
                Err(error) => decoded(wire@, self.max_frame_len) == Err::<
                    FrameView,
                    ProtocolError,
                >(error),
            },
    {
        if wire.len() < LENGTH_PREFIX_LEN {
            return Err(ProtocolError::Malformed);
        }
        let declared: u32 = read_be32(wire, 0);
        if declared > self.max_frame_len {
            return Err(ProtocolError::TooLarge);
        }
        if wire.len() - LENGTH_PREFIX_LEN != declared as usize {
            return Err(ProtocolError::Malformed);
        }
        let body = slice_subrange(wire, LENGTH_PREFIX_LEN, wire.len());
        match decode_body(body) {
            Some(frame) => Ok(frame),
            None => Err(ProtocolError::Malformed),
        }
    }
}

/// A chunk with a digest of the fixed form can be written whenever its
/// payload, with the 72 bytes in front of it, is within the maximum.
pub proof fn lemma_chunk_fits(packet: PacketView, max: u32)
    requires
        is_digest_text(packet.sha),
        packet.data.len() + CHUNK_HEADER_LEN <= max,
    ensures
        chunk_bytes(packet).len() == packet.data.len() + CHUNK_HEADER_LEN,
        encoded(FrameView::Chunk(packet), max) is Ok,
{
}

} // verus!
