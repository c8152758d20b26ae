//! The protocol units that travel between a peer and the relay, and the
//! bytes that stand for each of them.
//!
//! A text frame is UTF-8 text behind a tag. A chunk frame has a fixed binary
//! layout: the sequence number in four bytes, the digest in 64 hexadecimal
//! digits, the payload length in four bytes, then the payload. Integers are
//! written most significant byte first.

use crate::bytes::has_prefix;
use crate::decimal::{decimal, decimal_value, digits_end, is_decimal};
use crate::digest::{is_digest_text, is_hex};
use crate::packet::{Packet, PacketView};
use crate::wire::{be32, be32_value};
use vstd::prelude::*;
use vstd::utf8::*;

verus! {

/// Why a frame was refused.
#[derive(Debug, Clone, Copy, PartialEq, Eq, Structural)]
pub enum ProtocolError {
    /// The bytes are cut short or do not have the form of any frame.
    Malformed,
    /// The frame is longer than the configured maximum.
    TooLarge,
}

/// Why a requested file could not be sent.
#[derive(Debug, Clone, Copy, PartialEq, Eq, Structural)]
pub enum FileError {
    /// There is no file of that name.
    NotFound,
    /// The file is there but could not be read.
    Unreadable,
}

/// One protocol unit.
#[derive(Debug, PartialEq, Eq)]
pub enum Frame {
    /// `CHAT/ <text>`, from a peer: text for all other peers.
    Chat(String),
    /// `FILE/ <filename>`, from a peer: a request for a file.
    FileRequest(String),
    /// `END/`, from a peer: a graceful disconnect.
    End,
    /// One piece of a file transfer, from the relay.
    Chunk(Packet),
    /// `SERVER: <text>`, from the relay: the operator's broadcast.
    Server(String),
    /// `CLIENT <id>: <text>`, from the relay: what peer `id` said.
    Relay { id: u64, text: String },
    /// `CLIENT <id> disconnected.`, from the relay: peer `id` has left.
    Departure { id: u64 },
    /// `ERROR/ <reason>`, from the relay: the requested file was not sent.
    Failed(FileError),
}

/// A frame as plain values.
pub enum FrameView {
    Chat(Seq<char>),
    FileRequest(Seq<char>),
    End,
    Chunk(PacketView),
    Server(Seq<char>),
    Relay { id: u64, text: Seq<char> },
    Departure { id: u64 },
    Failed(FileError),
}

impl View for Frame {
    type V = FrameView;

    open spec fn view(&self) -> FrameView {
        match self {
            Frame::Chat(text) => FrameView::Chat(text@),
            Frame::FileRequest(name) => FrameView::FileRequest(name@),
            Frame::End => FrameView::End,
            Frame::Chunk(packet) => FrameView::Chunk(packet@),
            Frame::Server(text) => FrameView::Server(text@),
            Frame::Relay { id, text } => FrameView::Relay { id: *id, text: text@ },
            Frame::Departure { id } => FrameView::Departure { id: *id },
            Frame::Failed(error) => FrameView::Failed(*error),
        }
    }
}

impl Clone for Frame {
    /// A frame of the same kind with the same parts.
    fn clone(&self) -> (copy: Self)
        ensures
            copy@ == self@,
    {
        match self {
            Frame::Chat(text) => Frame::Chat(text.clone()),
            Frame::FileRequest(name) => Frame::FileRequest(name.clone()),
            Frame::End => Frame::End,
            Frame::Chunk(packet) => Frame::Chunk(packet.clone()),
            Frame::Server(text) => Frame::Server(text.clone()),
            Frame::Relay { id, text } => Frame::Relay { id: *id, text: text.clone() },
            Frame::Departure { id } => Frame::Departure { id: *id },
            Frame::Failed(error) => Frame::Failed(*error),
        }
    }
}

/// The number of bytes in a chunk frame before its payload.
pub const CHUNK_HEADER_LEN: usize = 72;

/// `CHAT/ `
pub open spec fn chat_tag() -> Seq<u8> {
    seq![0x43u8, 0x48, 0x41, 0x54, 0x2f, 0x20]
}

/// `FILE/ `
pub open spec fn file_tag() -> Seq<u8> {
    seq![0x46u8, 0x49, 0x4c, 0x45, 0x2f, 0x20]
}

/// `END/`
pub open spec fn end_tag() -> Seq<u8> {
    seq![0x45u8, 0x4e, 0x44, 0x2f]
}

/// `SERVER: `
pub open spec fn server_tag() -> Seq<u8> {
    seq![0x53u8, 0x45, 0x52, 0x56, 0x45, 0x52, 0x3a, 0x20]
}

/// `CLIENT `
pub open spec fn client_tag() -> Seq<u8> {
    seq![0x43u8, 0x4c, 0x49, 0x45, 0x4e, 0x54, 0x20]
}

/// `: `, between a peer's identifier and what it said.
pub open spec fn said_mark() -> Seq<u8> {
    seq![0x3au8, 0x20]
}

/// ` disconnected.`, behind the identifier of a peer that has left.
pub open spec fn departed_mark() -> Seq<u8> {
    seq![
        0x20u8,
        0x64,
        0x69,
        0x73,
        0x63,
        0x6f,
        0x6e,
        0x6e,
        0x65,
        0x63,
        0x74,
        0x65,
        0x64,
        0x2e,
    ]
}

/// `ERROR/ `
pub open spec fn error_tag() -> Seq<u8> {
    seq![0x45u8, 0x52, 0x52, 0x4f, 0x52, 0x2f, 0x20]
}

/// `file not found`
pub open spec fn not_found_reason() -> Seq<u8> {
    seq![
        0x66u8,
        0x69,
        0x6c,
        0x65,
        0x20,
        0x6e,
        0x6f,
        0x74,
        0x20,
        0x66,
        0x6f,
        0x75,
        0x6e,
        0x64,
    ]
}

/// `file unreadable`
pub open spec fn unreadable_reason() -> Seq<u8> {
    seq![
        0x66u8,
        0x69,
        0x6c,
        0x65,
        0x20,
        0x75,
        0x6e,
        0x72,
        0x65,
        0x61,
        0x64,
        0x61,
        0x62,
        0x6c,
        0x65,
    ]
}

/// The reason that an error notice gives for `error`.
pub open spec fn reason_bytes(error: FileError) -> Seq<u8> {
    match error {
        FileError::NotFound => not_found_reason(),
        FileError::Unreadable => unreadable_reason(),
    }
}

/// The bytes of a chunk frame.
pub open spec fn chunk_bytes(packet: PacketView) -> Seq<u8> {
    be32(packet.sequence_number) + encode_utf8(packet.sha) + be32(packet.data.len() as u32)
        + packet.data
}

/// The bytes that stand for `frame`, without the length in front.
pub open spec fn body_bytes(frame: FrameView) -> Seq<u8> {
    match frame {
        FrameView::Chat(text) => chat_tag() + encode_utf8(text),
        FrameView::FileRequest(name) => file_tag() + encode_utf8(name),
        FrameView::End => end_tag(),
        FrameView::Chunk(packet) => chunk_bytes(packet),
        FrameView::Server(text) => server_tag() + encode_utf8(text),
        FrameView::Relay { id, text } => client_tag() + decimal(id as nat) + said_mark()
            + encode_utf8(text),
        FrameView::Departure { id } => client_tag() + decimal(id as nat) + departed_mark(),
        FrameView::Failed(error) => error_tag() + reason_bytes(error),
    }
}

/// Whether `frame` can be written at all: a chunk must carry a digest of the
/// fixed form.
pub open spec fn encodable(frame: FrameView) -> bool {
    frame matches FrameView::Chunk(packet) ==> is_digest_text(packet.sha)
}

/// The text that `bytes` spell, if they are valid UTF-8.
pub open spec fn parse_text(bytes: Seq<u8>) -> Option<Seq<char>> {
    if valid_utf8(bytes) {
        Some(decode_utf8(bytes))
    } else {
        None
    }
}

/// The chunk that `body` stands for, if it has the layout of one.
pub open spec fn parse_chunk(body: Seq<u8>) -> Option<FrameView> {
    if body.len() >= CHUNK_HEADER_LEN && is_hex(body.subrange(4, 68)) && be32_value(
        body.subrange(68, 72),
    ) == body.len() - CHUNK_HEADER_LEN {
        Some(
            FrameView::Chunk(
                PacketView {
                    sequence_number: be32_value(body.subrange(0, 4)) as u32,
                    data: body.skip(72),
                    sha: decode_utf8(body.subrange(4, 68)),
                },
            ),
        )
    } else {
        None
    }
}

/// The notice about a peer that `rest` stands for, `rest` being what follows
/// `CLIENT `.
pub open spec fn parse_client(rest: Seq<u8>) -> Option<FrameView> {
    let end = digits_end(rest, 0);
    let digits = rest.subrange(0, end);
    let tail = rest.skip(end);
    if !is_decimal(digits) || decimal_value(digits) > u64::MAX {
        None
    } else if has_prefix(tail, said_mark()) {
        match parse_text(tail.skip(2)) {
            Some(text) => Some(FrameView::Relay { id: decimal_value(digits) as u64, text }),
            None => None,
        }
    } else if tail == departed_mark() {
        Some(FrameView::Departure { id: decimal_value(digits) as u64 })
    } else {
        None
    }
}

/// The error notice that `reason` stands for, `reason` being what follows
/// `ERROR/ `.
pub open spec fn parse_failure(reason: Seq<u8>) -> Option<FrameView> {
    if reason == not_found_reason() {
        Some(FrameView::Failed(FileError::NotFound))
    } else if reason == unreadable_reason() {
        Some(FrameView::Failed(FileError::Unreadable))
    } else {
        None
    }
}

/// The frame that `body` stands for, if any. The kind is told by the tag in
/// front; what carries no tag is a chunk.
pub open spec fn parse_body(body: Seq<u8>) -> Option<FrameView> {
    if has_prefix(body, chat_tag()) {
        match parse_text(body.skip(6)) {
            Some(text) => Some(FrameView::Chat(text)),
            None => None,
        }
    } else if has_prefix(body, file_tag()) {
        match parse_text(body.skip(6)) {
            Some(name) => Some(FrameView::FileRequest(name)),
            None => None,
        }
    } else if body == end_tag() {
        Some(FrameView::End)
    } else if has_prefix(body, server_tag()) {
        match parse_text(body.skip(8)) {
            Some(text) => Some(FrameView::Server(text)),
            None => None,
        }
    } else if has_prefix(body, client_tag()) {
        parse_client(body.skip(7))
    } else if has_prefix(body, error_tag()) {
        parse_failure(body.skip(7))
    } else {
        parse_chunk(body)
    }
}

} // verus!
