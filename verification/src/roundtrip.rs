//! What is written can be read back, and what was read is what would be
//! written: the codec loses nothing in either direction.

use crate::bytes::has_prefix;
use crate::codec::{decoded, encoded};
use crate::decimal::{
    decimal, decimal_value, digits_end, is_decimal, is_digit, lemma_decimal_of_decimal_value,
    lemma_decimal_value_of_decimal, lemma_digits_end, lemma_digits_end_is_run,
};
use crate::digest::{is_digest_text, is_hex_digit};
use crate::frame::{
    body_bytes, chat_tag, chunk_bytes, client_tag, departed_mark, encodable, end_tag, error_tag,
    file_tag, not_found_reason, parse_body, parse_chunk, parse_client, parse_text, reason_bytes,
    said_mark, server_tag, unreadable_reason, FileError, FrameView, ProtocolError,
};
use crate::packet::PacketView;
use crate::text::{is_ascii_bytes, lemma_ascii_is_utf8};
use crate::wire::{be32, lemma_be32_of_be32_value, lemma_be32_value_of_be32};
use vstd::prelude::*;
use vstd::utf8::*;

verus! {

proof fn lemma_text_behind_tag(tag: Seq<u8>, text: Seq<char>)
    ensures
        has_prefix(tag + encode_utf8(text), tag),
        (tag + encode_utf8(text)).skip(tag.len() as int) == encode_utf8(text),
        parse_text(encode_utf8(text)) == Some(text),
{
    let body = tag + encode_utf8(text);
    assert(body.subrange(0, tag.len() as int) =~= tag);
    encode_utf8_valid_utf8(text);
    encode_utf8_decode_utf8(text);
}

proof fn lemma_tag_before_text(tag: Seq<u8>, body: Seq<u8>)
    requires
        has_prefix(body, tag),
        parse_text(body.skip(tag.len() as int)) is Some,
    ensures
        tag + encode_utf8(parse_text(body.skip(tag.len() as int))->0) == body,
{
    let rest = body.skip(tag.len() as int);
    decode_utf8_encode_utf8(rest);
}

proof fn lemma_no_prefix(body: Seq<u8>, tag: Seq<u8>, at: int)
    requires
        0 <= at < tag.len(),
        at < body.len() ==> body[at] != tag[at],
    ensures
        !has_prefix(body, tag),
{
    if tag.len() <= body.len() {
        assert(body.subrange(0, tag.len() as int)[at] == body[at]);
    }
}

proof fn lemma_parse_chat(text: Seq<char>)
    ensures
        parse_body(body_bytes(FrameView::Chat(text))) == Some(FrameView::Chat(text)),
{
    lemma_text_behind_tag(chat_tag(), text);
}

proof fn lemma_parse_file_request(name: Seq<char>)
    ensures
        parse_body(body_bytes(FrameView::FileRequest(name))) == Some(FrameView::FileRequest(name)),
{
    let body = body_bytes(FrameView::FileRequest(name));
    lemma_text_behind_tag(file_tag(), name);
    lemma_no_prefix(body, chat_tag(), 0);
}

proof fn lemma_parse_end()
    ensures
        parse_body(body_bytes(FrameView::End)) == Some(FrameView::End),
{
}

proof fn lemma_parse_server(text: Seq<char>)
    ensures
        parse_body(body_bytes(FrameView::Server(text))) == Some(FrameView::Server(text)),
{
    let body = body_bytes(FrameView::Server(text));
    lemma_text_behind_tag(server_tag(), text);
    lemma_no_prefix(body, chat_tag(), 0);
    lemma_no_prefix(body, file_tag(), 0);
}

proof fn lemma_client_is_no_other(body: Seq<u8>)
    requires
        has_prefix(body, client_tag()),
    ensures
        !has_prefix(body, chat_tag()),
        !has_prefix(body, file_tag()),
        body != end_tag(),
        !has_prefix(body, server_tag()),
{
    assert(body.subrange(0, 7)[0] == body[0]);
    assert(body.subrange(0, 7)[1] == body[1]);
    lemma_no_prefix(body, chat_tag(), 1);
    lemma_no_prefix(body, file_tag(), 0);
    lemma_no_prefix(body, server_tag(), 0);
}

proof fn lemma_digits_then_mark(id: u64, mark: Seq<u8>, rest: Seq<u8>)
    requires
        mark.len() > 0,
        !is_digit(mark[0]),
    ensures
        digits_end(decimal(id as nat) + mark + rest, 0) == decimal(id as nat).len(),
        (decimal(id as nat) + mark + rest).subrange(0, decimal(id as nat).len() as int)
            == decimal(id as nat),
        (decimal(id as nat) + mark + rest).skip(decimal(id as nat).len() as int) == mark + rest,
        is_decimal(decimal(id as nat)),
        decimal_value(decimal(id as nat)) == id,
{
    let digits = decimal(id as nat);
    let all = digits + mark + rest;
    lemma_decimal_value_of_decimal(id as nat);
    assert forall|i: int| 0 <= i < digits.len() implies is_digit(#[trigger] all[i]) by {
        assert(all[i] == digits[i]);
    }
    assert(all[digits.len() as int] == mark[0]);
    lemma_digits_end(all, 0, digits.len() as int);
}

proof fn lemma_parse_relay(id: u64, text: Seq<char>)
    ensures
        parse_body(body_bytes(FrameView::Relay { id, text })) == Some(
            FrameView::Relay { id, text },
        ),
{
    let frame = FrameView::Relay { id, text };
    let body = body_bytes(frame);
    let rest = decimal(id as nat) + said_mark() + encode_utf8(text);
    assert(body.subrange(0, 7) =~= client_tag());
    assert(body.skip(7) =~= rest);
    lemma_client_is_no_other(body);
    lemma_digits_then_mark(id, said_mark(), encode_utf8(text));
    lemma_text_behind_tag(said_mark(), text);
    assert(parse_client(rest) == Some(frame));
}

proof fn lemma_parse_departure(id: u64)
    ensures
        parse_body(body_bytes(FrameView::Departure { id })) == Some(FrameView::Departure { id }),
{
    let frame = FrameView::Departure { id };
    let body = body_bytes(frame);
    let rest = decimal(id as nat) + departed_mark();
    assert(body.subrange(0, 7) =~= client_tag());
    assert(body.skip(7) =~= rest);
    lemma_client_is_no_other(body);
    lemma_digits_then_mark(id, departed_mark(), Seq::<u8>::empty());
    lemma_no_prefix(departed_mark(), said_mark(), 0);
    assert(parse_client(rest) == Some(frame));
}

proof fn lemma_parse_failed(error: FileError)
    ensures
        parse_body(body_bytes(FrameView::Failed(error))) == Some(FrameView::Failed(error)),
{
    let body = body_bytes(FrameView::Failed(error));
    assert(body.subrange(0, 7) =~= error_tag());
    assert(body.skip(7) =~= reason_bytes(error));
    lemma_no_prefix(body, chat_tag(), 0);
    lemma_no_prefix(body, file_tag(), 0);
    lemma_no_prefix(body, server_tag(), 0);
    lemma_no_prefix(body, client_tag(), 0);
    assert(not_found_reason().len() != unreadable_reason().len());
}

proof fn lemma_parse_chunk(packet: PacketView)
    requires
        is_digest_text(packet.sha),
        packet.data.len() <= u32::MAX,
    ensures
        chunk_bytes(packet).len() == 72 + packet.data.len(),
        parse_body(chunk_bytes(packet)) == Some(FrameView::Chunk(packet)),
{
    let body = chunk_bytes(packet);
    let written = encode_utf8(packet.sha);
    lemma_be32_value_of_be32(packet.sequence_number);
    lemma_be32_value_of_be32(packet.data.len() as u32);
    encode_utf8_decode_utf8(packet.sha);
    assert(body.subrange(4, 68) =~= written);
    assert(body.skip(72) =~= packet.data);
    assert(body[4] == written[0]);
    assert(is_hex_digit(written[0]));
    lemma_no_prefix(body, chat_tag(), 4);
    lemma_no_prefix(body, file_tag(), 4);
    lemma_no_prefix(body, server_tag(), 4);
    lemma_no_prefix(body, client_tag(), 4);
    lemma_no_prefix(body, error_tag(), 4);
    assert(parse_chunk(body) == Some(FrameView::Chunk(packet)));
}

/// Reading the body that was written for a frame gives the frame back.
pub proof fn lemma_parse_of_body(frame: FrameView)
    requires
        encodable(frame),
        frame matches FrameView::Chunk(packet) ==> packet.data.len() <= u32::MAX,
    ensures
        parse_body(body_bytes(frame)) == Some(frame),
{
    match frame {
        FrameView::Chat(text) => lemma_parse_chat(text),
        FrameView::FileRequest(name) => lemma_parse_file_request(name),
        FrameView::End => lemma_parse_end(),
        FrameView::Chunk(packet) => lemma_parse_chunk(packet),
        FrameView::Server(text) => lemma_parse_server(text),
        FrameView::Relay { id, text } => lemma_parse_relay(id, text),
        FrameView::Departure { id } => lemma_parse_departure(id),
        FrameView::Failed(error) => lemma_parse_failed(error),
    }
}

proof fn lemma_body_of_client(rest: Seq<u8>)
    requires
        parse_client(rest) is Some,
    ensures
        body_bytes(parse_client(rest)->0) == client_tag() + rest,
{
    let end = digits_end(rest, 0);
    let digits = rest.subrange(0, end);
    let tail = rest.skip(end);
    lemma_digits_end_is_run(rest, 0);
    lemma_decimal_of_decimal_value(digits);
    if has_prefix(tail, said_mark()) {
        lemma_tag_before_text(said_mark(), tail);
        let text = parse_text(tail.skip(2))->0;
        assert(client_tag() + digits + said_mark() + encode_utf8(text) =~= client_tag() + (digits
            + (said_mark() + encode_utf8(text))));
    } else {
        assert(client_tag() + digits + departed_mark() =~= client_tag() + (digits + tail));
    }
}

proof fn lemma_body_of_chunk(body: Seq<u8>)
    requires
        parse_chunk(body) is Some,
    ensures
        body_bytes(parse_chunk(body)->0) == body,
        encodable(parse_chunk(body)->0),
{
    let written = body.subrange(4, 68);
    assert(is_ascii_bytes(written)) by {
        assert forall|k: int| 0 <= k < written.len() implies #[trigger] written[k] < 0x80 by {
            assert(is_hex_digit(written[k]));
        }
    }
    lemma_ascii_is_utf8(written);
    decode_utf8_encode_utf8(written);
    lemma_be32_of_be32_value(body.subrange(0, 4));
    lemma_be32_of_be32_value(body.subrange(68, 72));
    let packet = parse_chunk(body)->0->Chunk_0;
    assert(packet.data.len() == body.len() - 72);
    assert(chunk_bytes(packet) =~= body.subrange(0, 4) + written + body.subrange(68, 72)
        + body.skip(72));
}

/// A body that stands for a frame is the very body that is written for that
/// frame, and the frame is one that can be written.
pub proof fn lemma_body_of_parse(body: Seq<u8>)
    requires
        parse_body(body) is Some,
    ensures
        body_bytes(parse_body(body)->0) == body,
        encodable(parse_body(body)->0),
{
    if has_prefix(body, chat_tag()) {
        lemma_tag_before_text(chat_tag(), body);
    } else if has_prefix(body, file_tag()) {
        lemma_tag_before_text(file_tag(), body);
    } else if body == end_tag() {
    } else if has_prefix(body, server_tag()) {
        lemma_tag_before_text(server_tag(), body);
    } else if has_prefix(body, client_tag()) {
        lemma_body_of_client(body.skip(7));
    } else if has_prefix(body, error_tag()) {
        assert(error_tag() + body.skip(7) =~= body);
    } else {
        lemma_body_of_chunk(body);
    }
}

/// Whatever the codec reads from the wire, it writes as the same bytes:
/// encoding what was decoded gives the frame's bytes back, for every kind of
/// frame and every payload size that the maximum admits.
pub proof fn lemma_encode_of_decoded(wire: Seq<u8>, max: u32)
    requires
        decoded(wire, max) is Ok,
    ensures
        encoded(decoded(wire, max)->Ok_0, max) == Ok::<Seq<u8>, ProtocolError>(wire),
{
    let body = wire.skip(4);
    lemma_body_of_parse(body);
    lemma_be32_of_be32_value(wire.subrange(0, 4));
    assert(wire.subrange(0, 4) + body =~= wire);
}

/// Whatever the codec writes, it reads back as the same frame.
pub proof fn lemma_decode_of_encoded(frame: FrameView, max: u32)
    requires
        encoded(frame, max) is Ok,
    ensures
        decoded(encoded(frame, max)->Ok_0, max) == Ok::<FrameView, ProtocolError>(frame),
{
    let body = body_bytes(frame);
    let wire = encoded(frame, max)->Ok_0;
    lemma_be32_value_of_be32(body.len() as u32);
    assert(wire.skip(4) =~= body);
    if let FrameView::Chunk(packet) = frame {
        assert(chunk_bytes(packet).len() >= packet.data.len());
    }
    lemma_parse_of_body(frame);
}

} // verus!
