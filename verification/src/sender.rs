//! Sending a file: its chunks as frames, one write for each.

use crate::chunker::Chunker;
use crate::codec::{encoded, lemma_chunk_fits, FrameCodec};
use crate::frame::{Frame, FrameView, ProtocolError, CHUNK_HEADER_LEN};
use crate::packet::PacketView;
use vstd::prelude::*;

verus! {

/// Why a file was not sent in full.
#[derive(Debug, Clone, Copy, PartialEq, Eq)]
pub enum SendError {
    /// A chunk could not be written as a frame.
    Refused(ProtocolError),
    /// Writing a frame failed.
    WriteFailed,
}

/// A chunk as it travels under the maximum `max`.
pub open spec fn chunk_wire(chunk: PacketView, max: u32) -> Result<Seq<u8>, ProtocolError> {
    encoded(FrameView::Chunk(chunk), max)
}

/// Whether `write` was called on the bytes `wire` and gave `ok`.
pub open spec fn wrote<F: Fn(&[u8]) -> bool>(write: F, wire: Seq<u8>, ok: bool) -> bool {
    exists|bytes: &[u8]| bytes@ == wire && #[trigger] call_ensures(write, (bytes,), ok)
}

/// Whether the first `count` of `chunks` were written as frames, each write
/// succeeding.
pub open spec fn all_written<F: Fn(&[u8]) -> bool>(
    write: F,
    chunks: Seq<PacketView>,
    max: u32,
    count: int,
) -> bool {
    forall|j: int|
        0 <= j < count ==> (#[trigger] chunk_wire(chunks[j], max)) is Ok && wrote(
            write,
            chunk_wire(chunks[j], max)->Ok_0,
            true,
        )
}

/// Sends the chunks that `chunker` still holds, in order: each is written as
/// a frame by one call of `write`.
///
/// Stops at the first chunk that cannot be written as a frame, and at the
/// first write that fails; the chunks behind it stay in the chunker. Every
/// chunk can be written as a frame where the codec's maximum admits the
/// chunker's payload limit and the 72 bytes in front of a payload.
pub fn send_file<F: Fn(&[u8]) -> bool>(chunker: &mut Chunker, codec: &FrameCodec, write: F) -> (sent:
    Result<(), SendError>)
    requires
        old(chunker).wf(),
        forall|bytes: &[u8]| call_requires(write, (bytes,)),
    ensures
        final(chunker).wf(),
        final(chunker).content() == old(chunker).content(),
        final(chunker).cap() == old(chunker).cap(),
        final(chunker).digest() == old(chunker).digest(),
        old(chunker).cap() + CHUNK_HEADER_LEN <= codec.max_frame_len ==> !(sent matches Err(
            SendError::Refused(_),
        )),
        ({
            let chunks = old(chunker).remaining();
            let max = codec.max_frame_len;
            let taken = chunks.len() - final(chunker).remaining().len();
            &&& 0 <= taken <= chunks.len()
            &&& final(chunker).remaining() == chunks.skip(taken)
            &&& match sent {
                Ok(_) => taken == chunks.len() && all_written(write, chunks, max, taken),
                Err(SendError::Refused(error)) => {
                    &&& taken >= 1
                    &&& all_written(write, chunks, max, taken - 1)
                    &&& chunk_wire(chunks[taken - 1], max) == Err::<Seq<u8>, ProtocolError>(error)
                },
                Err(SendError::WriteFailed) => {
                    &&& taken >= 1
                    &&& all_written(write, chunks, max, taken - 1)
                    &&& chunk_wire(chunks[taken - 1], max) is Ok
                    &&& wrote(write, chunk_wire(chunks[taken - 1], max)->Ok_0, false)
                },
            }
        }),
{
    let ghost chunks = chunker.remaining();
    let ghost max = codec.max_frame_len;
    let ghost mut taken: int = 0;
    loop
        invariant
            chunker.wf(),
            chunker.content() == old(chunker).content(),
            chunker.cap() == old(chunker).cap(),
            chunker.digest() == old(chunker).digest(),
            chunks == old(chunker).remaining(),
            max == codec.max_frame_len,
            0 <= taken <= chunks.len(),
            chunker.remaining() == chunks.skip(taken),
            all_written(write, chunks, max, taken),
            forall|bytes: &[u8]| call_requires(write, (bytes,)),
        decreases chunks.len() - taken,
    {
        match chunker.next() {
            None => {
                return Ok(());
            },
            Some(packet) => {
                proof {
                    assert(chunks.skip(taken)[0] == chunks[taken]);
                }
                proof {
                    if chunker.cap() + CHUNK_HEADER_LEN <= max {
                        lemma_chunk_fits(packet@, max);
                    }
                }
                let frame = Frame::Chunk(packet);
                match codec.encode(&frame) {
                    Err(error) => {
                        return Err(SendError::Refused(error));
                    },
                    Ok(wire) => {
                        let ok = write(wire.as_slice());
                        if !ok {
                            return Err(SendError::WriteFailed);
                        }
                        proof {
                            assert(wrote(write, chunk_wire(chunks[taken], max)->Ok_0, true));
                            taken = taken + 1;
                        }
                    },
                }
            },
        }
    }
}

} // verus!
