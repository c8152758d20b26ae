//! Frames out of a byte stream.
//!
//! A read from a stream may bring a part of a frame, or several frames at
//! once. The reader collects what was read and hands out one whole frame at a
//! time, so that frames are found where they are, however the stream was cut
//! into reads.

use crate::bytes::append;
use crate::codec::{encoded, LENGTH_PREFIX_LEN};
use crate::frame::{FrameView, ProtocolError};
use crate::wire::{be32_value, lemma_be32_value_of_be32, read_be32};
use vstd::prelude::*;

verus! {

/// The length of the frame at the front of `pending`, its four-byte length
/// included: nothing while the frame is not there in full, and `TooLarge`
/// once its length is known to be over `max`.
pub open spec fn first_frame(pending: Seq<u8>, max: u32) -> Result<Option<int>, ProtocolError> {
    if pending.len() < LENGTH_PREFIX_LEN {
        Ok(None)
    } else if be32_value(pending) > max {
        Err(ProtocolError::TooLarge)
    } else if pending.len() < LENGTH_PREFIX_LEN + be32_value(pending) {
        Ok(None)
    } else {
        Ok(Some(LENGTH_PREFIX_LEN + be32_value(pending)))
    }
}

/// What was read from a stream and not yet handed out.
#[derive(Debug, PartialEq, Eq)]
pub struct FrameReader {
    pending: Vec<u8>,
    max_frame_len: u32,
}

impl FrameReader {
    /// The bytes that were read and not yet handed out.
    pub closed spec fn pending(&self) -> Seq<u8> {
        self.pending@
    }

    /// The maximum length of the body of a frame.
    pub closed spec fn max(&self) -> u32 {
        self.max_frame_len
    }

    /// A reader that has read nothing, for frames with bodies of up to
    /// `max_frame_len` bytes.
    pub fn new(max_frame_len: u32) -> (reader: Self)
        ensures
            reader.pending() == Seq::<u8>::empty(),
            reader.max() == max_frame_len,
    {
        FrameReader { pending: Vec::new(), max_frame_len }
    }

    /// Takes what one read brought.
    pub fn feed(&mut self, bytes: &[u8])
        ensures
            final(self).pending() == old(self).pending() + bytes@,
            final(self).max() == old(self).max(),
    {
        append(&mut self.pending, bytes);
    }

    /// Hands out the frame at the front, length and body, once it is there
    /// in full, and keeps what follows it.
    ///
    /// Gives nothing, and keeps everything, while the frame is incomplete.
    /// Fails with `TooLarge`, and keeps everything, where the length in front
    /// is over the maximum.
    pub fn next_frame(&mut self) -> (frame: Result<Option<Vec<u8>>, ProtocolError>)
        ensures
            final(self).max() == old(self).max(),
            match first_frame(old(self).pending(), old(self).max()) {
                Ok(Some(n)) => {
                    &&& frame matches Ok(Some(wire))
                    &&& wire@ == old(self).pending().take(n)
                    &&& final(self).pending() == old(self).pending().skip(n)
                },
                Ok(None) => {
                    &&& frame == Ok::<Option<Vec<u8>>, ProtocolError>(None)
                    &&& final(self).pending() == old(self).pending()
                },
                Err(error) => {
                    &&& frame == Err::<Option<Vec<u8>>, ProtocolError>(error)
                    &&& final(self).pending() == old(self).pending()
                },
            },
    {
        if self.pending.len() < LENGTH_PREFIX_LEN {
            return Ok(None);
        }
        let declared: u32 = read_be32(self.pending.as_slice(), 0);
        if declared > self.max_frame_len {
            return Err(ProtocolError::TooLarge);
        }
        if self.pending.len() - LENGTH_PREFIX_LEN < declared as usize {
            return Ok(None);
        }
        let total: usize = LENGTH_PREFIX_LEN + declared as usize;
        let mut wire = self.pending.split_off(total);
        core::mem::swap(&mut self.pending, &mut wire);
        proof {
            assert(wire@ =~= old(self).pending().take(total as int));
        }
        Ok(Some(wire))
    }
}

/// A frame at the front of the stream is found whole, whatever follows it.
pub proof fn lemma_whole_frame_is_found(frame: FrameView, max: u32, rest: Seq<u8>)
    requires
        encoded(frame, max) is Ok,
    ensures
        ({
            let wire = encoded(frame, max)->Ok_0;
            &&& first_frame(wire + rest, max) == Ok::<Option<int>, ProtocolError>(
                Some(wire.len() as int),
            )
            &&& (wire + rest).take(wire.len() as int) == wire
            &&& (wire + rest).skip(wire.len() as int) == rest
        }),
{
    let wire = encoded(frame, max)->Ok_0;
    let body_len = (wire.len() - 4) as u32;
    lemma_be32_value_of_be32(body_len);
}

/// A frame of which only a part has come is waited for: the part is neither
/// taken for a frame nor refused.
pub proof fn lemma_part_of_frame_waits(frame: FrameView, max: u32, part: int)
    requires
        encoded(frame, max) is Ok,
        0 <= part < encoded(frame, max)->Ok_0.len(),
    ensures
        first_frame(encoded(frame, max)->Ok_0.take(part), max) == Ok::<
            Option<int>,
            ProtocolError,
        >(None),
{
    let wire = encoded(frame, max)->Ok_0;
    let body_len = (wire.len() - 4) as u32;
    lemma_be32_value_of_be32(body_len);
}

} // verus!
