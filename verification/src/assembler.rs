//! The chunk assembler: the receiving side of a file transfer.
//!
//! Chunks are taken in the order in which they arrive. A chunk out of turn
//! ends the transfer at once and for good: nothing is reordered, nothing is
//! dropped in silence, and no later chunk can mend it. When no more chunks
//! will come, the digest of what was put together is held against the digest
//! that the chunks carried.

use crate::bytes::append;
use crate::digest::{digest_text, file_digest};
use crate::packet::{Packet, PacketView};
use vstd::prelude::*;

verus! {

/// Why a transfer was given up.
#[derive(Debug, Clone, Copy, PartialEq, Eq, Structural)]
pub enum TransferError {
    /// A chunk came whose sequence number was not the next one.
    OutOfOrder,
    /// What was put together has not the digest that the chunks carried.
    DigestMismatch,
}

/// The state of an assembler, as plain values.
pub struct AssemblerView {
    /// The payloads accepted so far, one behind the other.
    pub bytes: Seq<u8>,
    /// How many chunks were accepted, which is the sequence number that the
    /// next chunk must have.
    pub expected: nat,
    /// The digest that the first chunk carried, once there was one.
    pub carried: Option<Seq<char>>,
    /// Whether every chunk since carried that same digest.
    pub agree: bool,
    /// Whether a chunk came out of turn, which ended the transfer.
    pub aborted: bool,
}

/// The state of an assembler that has seen no chunk.
pub open spec fn fresh() -> AssemblerView {
    AssemblerView { bytes: Seq::empty(), expected: 0, carried: None, agree: true, aborted: false }
}

/// Whether `chunk` is accepted: the transfer has not ended, and the chunk is
/// the one that is due.
pub open spec fn is_due(state: AssemblerView, chunk: PacketView) -> bool {
    !state.aborted && chunk.sequence_number == state.expected
}

/// The state after `chunk` was offered: with its payload behind what was
/// there if the chunk was due, and ended otherwise.
pub open spec fn after_offer(state: AssemblerView, chunk: PacketView) -> AssemblerView {
    if is_due(state, chunk) {
        AssemblerView {
            bytes: state.bytes + chunk.data,
            expected: state.expected + 1,
            carried: if state.expected == 0 {
                Some(chunk.sha)
            } else {
                state.carried
            },
            agree: state.agree && (state.expected == 0 || state.carried == Some(chunk.sha)),
            aborted: false,
        }
    } else {
        AssemblerView { aborted: true, ..state }
    }
}

/// What the end of the transfer gives: the assembled bytes, if every chunk
/// came in its turn and the digest of the bytes is the one that every chunk
/// carried. A transfer without chunks gives the empty file.
pub open spec fn finished(state: AssemblerView) -> Result<Seq<u8>, TransferError> {
    if state.aborted {
        Err(TransferError::OutOfOrder)
    } else if state.expected == 0 || (state.agree && state.carried == Some(
        digest_text(state.bytes),
    )) {
        Ok(state.bytes)
    } else {
        Err(TransferError::DigestMismatch)
    }
}

/// The receiving side of one transfer.
pub struct Assembler {
    data: Vec<u8>,
    expected: u64,
    carried: Option<String>,
    agree: bool,
    aborted: bool,
}

impl View for Assembler {
    type V = AssemblerView;

    closed spec fn view(&self) -> AssemblerView {
        AssemblerView {
            bytes: self.data@,
            expected: self.expected as nat,
            carried: match self.carried {
                Some(digest) => Some(digest@),
                None => None,
            },
            agree: self.agree,
            aborted: self.aborted,
        }
    }
}

impl Assembler {
    /// What holds of every assembler: it has accepted no more chunks than
    /// there are sequence numbers.
    pub open spec fn wf(&self) -> bool {
        self@.expected <= 0x1_0000_0000
    }

    /// An assembler that has seen no chunk.
    pub fn new() -> (assembler: Self)
        ensures
            assembler.wf(),
            assembler@ == fresh(),
    {
        Assembler { data: Vec::new(), expected: 0, carried: None, agree: true, aborted: false }
    }

    /// The number of bytes put together so far.
    pub fn len(&self) -> (n: usize)
        ensures
            n == self@.bytes.len(),
    {
        self.data.len()
    }

    /// The number of chunks accepted so far.
    pub fn accepted(&self) -> (n: u64)
        ensures
            n == self@.expected,
    {
        self.expected
    }

    /// Whether a chunk came out of turn.
    pub fn is_aborted(&self) -> (aborted: bool)
        ensures
            aborted == self@.aborted,
    {
        self.aborted
    }

    /// Takes the next chunk: its payload goes behind what is there.
    ///
    /// Fails with `OutOfOrder` where the chunk's sequence number is not the
    /// next one: the first chunk has number 0, each later one the number
    /// behind that of the chunk before it. That ends the transfer: what was
    /// put together stays as it is, and every later chunk is refused.
    pub fn accept(&mut self, chunk: &Packet) -> (taken: Result<(), TransferError>)
        requires
            old(self).wf(),
        ensures
            final(self).wf(),
            final(self)@ == after_offer(old(self)@, chunk@),
            match taken {
                Ok(_) => is_due(old(self)@, chunk@),
                Err(error) => error == TransferError::OutOfOrder && !is_due(old(self)@, chunk@),
            },
    {
        if self.aborted || chunk.sequence_number as u64 != self.expected {
            self.aborted = true;
            return Err(TransferError::OutOfOrder);
        }
        if self.expected == 0 {
            self.carried = Some(chunk.sha.clone());
        } else {
            let same = match &self.carried {
                Some(digest) => *digest == chunk.sha,
                None => false,
            };
            self.agree = self.agree && same;
        }
        append(&mut self.data, chunk.data.as_slice());
        self.expected = self.expected + 1;
        assert(self@.carried == after_offer(old(self)@, chunk@).carried);
        assert(self@.agree == after_offer(old(self)@, chunk@).agree);
        Ok(())
    }

    /// Ends the transfer, no more chunks being due: gives the assembled file
    /// if its digest, computed anew, is the one that the chunks carried.
    ///
    /// Fails with `OutOfOrder` where a chunk came out of turn, and with
    /// `DigestMismatch` where the digest is another, or where the chunks did
    /// not all carry the same digest.
    pub fn finish(self) -> (file: Result<Vec<u8>, TransferError>)
        ensures
            match file {
                Ok(bytes) => finished(self@) == Ok::<Seq<u8>, TransferError>(bytes@),
                Err(error) => finished(self@) == Err::<Seq<u8>, TransferError>(error),
            },
    {
        if self.aborted {
            return Err(TransferError::OutOfOrder);
        }
        if self.expected == 0 {
            return Ok(self.data);
        }
        let computed = file_digest(self.data.as_slice());
        let matches = match &self.carried {
            Some(digest) => self.agree && *digest == computed,
            None => false,
        };
        if matches {
            Ok(self.data)
        } else {
            Err(TransferError::DigestMismatch)
        }
    }
}

} // verus!
