//! The file chunker: a file's content as a run of chunks, each with its
//! sequence number and the digest of the whole file.

use crate::bytes::copy_range;
use crate::digest::{digest_text, file_digest, is_digest_text};
use crate::frame::FileError;
use crate::packet::{Packet, PacketView};
use vstd::prelude::*;

verus! {

/// The largest payload of a chunk, unless another is asked for.
pub const CHUNK_SIZE: usize = 4096;

/// The chunks of `rest` under the payload limit `cap`, numbered from `first`
/// on, each carrying `digest`: every chunk but the last holds `cap` bytes,
/// and no chunk is empty.
pub open spec fn chunks_from(rest: Seq<u8>, cap: nat, digest: Seq<char>, first: nat) -> Seq<
    PacketView,
>
    decreases rest.len(),
{
    if rest.len() == 0 || cap == 0 {
        Seq::empty()
    } else {
        let n = if rest.len() <= cap {
            rest.len()
        } else {
            cap
        };
        seq![PacketView { sequence_number: first as u32, data: rest.take(n as int), sha: digest }]
            + chunks_from(rest.skip(n as int), cap, digest, first + 1)
    }
}

/// The chunks of a file with this content, under the payload limit `cap`.
pub open spec fn chunks_of(content: Seq<u8>, cap: nat) -> Seq<PacketView> {
    chunks_from(content, cap, digest_text(content), 0)
}

/// Whether `len` bytes can be numbered from `first` on under the payload
/// limit `cap`, a sequence number having 32 bits.
pub open spec fn numbers_suffice(len: nat, cap: nat, first: nat) -> bool {
    cap > 0 && first <= 0x1_0000_0000 && len <= (0x1_0000_0000 - first) * cap
}

/// A file on its way out: the content, and how far the chunks have got.
#[derive(Debug, PartialEq, Eq)]
pub struct Chunker {
    content: Vec<u8>,
    cap: usize,
    digest: String,
    offset: usize,
    sent: u64,
}

impl Chunker {
    /// The content of the file.
    pub closed spec fn content(&self) -> Seq<u8> {
        self.content@
    }

    /// The payload limit.
    pub closed spec fn cap(&self) -> nat {
        self.cap as nat
    }

    /// The digest that every chunk carries.
    pub closed spec fn digest(&self) -> Seq<char> {
        self.digest@
    }

    /// The number of bytes that have gone out.
    pub closed spec fn offset(&self) -> nat {
        self.offset as nat
    }

    /// The number of chunks that have gone out.
    pub closed spec fn sent(&self) -> nat {
        self.sent as nat
    }

    /// What holds of every chunker: the digest has the form of one, and the
    /// sequence numbers suffice for what is left.
    pub open spec fn wf(&self) -> bool {
        &&& self.offset() <= self.content().len()
        &&& is_digest_text(self.digest())
        &&& numbers_suffice((self.content().len() - self.offset()) as nat, self.cap(), self.sent())
    }

    /// The chunks that are still to come.
    pub open spec fn remaining(&self) -> Seq<PacketView> {
        chunks_from(
            self.content().skip(self.offset() as int),
            self.cap(),
            self.digest(),
            self.sent(),
        )
    }

    /// A chunker for a file with this content, with payloads of up to `cap`
    /// bytes. The digest is computed here, in one pass over the content.
    ///
    /// Gives nothing where `cap` is zero, or where the file would take more
    /// chunks than there are sequence numbers.
    pub fn new(content: Vec<u8>, cap: usize) -> (chunker: Option<Chunker>)
        ensures
            chunker is Some <==> numbers_suffice(content@.len(), cap as nat, 0),
            chunker matches Some(c) ==> {
                &&& c.wf()
                &&& c.content() == content@
                &&& c.cap() == cap
                &&& c.digest() == digest_text(content@)
                &&& c.offset() == 0
                &&& c.sent() == 0
                &&& c.remaining() == chunks_of(content@, cap as nat)
            },
    {
        if cap == 0 {
            return None;
        }
        let len: u128 = content.len() as u128;
        let room: u128 = 0x1_0000_0000u128 * (cap as u128);
        if len > room {
            return None;
        }
        let digest = file_digest(content.as_slice());
        assert(content@.skip(0) =~= content@);
        Some(Chunker { content, cap, digest, offset: 0, sent: 0 })
    }

    /// A chunker for the file that was read, or the reason why there is
    /// none: the reason why the file was not read, and `Unreadable` for a file
    /// that cannot be sent in chunks of up to `cap` bytes.
    pub fn open(read: Result<Vec<u8>, FileError>, cap: usize) -> (chunker: Result<
        Chunker,
        FileError,
    >)
        ensures
            match read {
                Ok(content) => if numbers_suffice(content@.len(), cap as nat, 0) {
                    &&& chunker matches Ok(c)
                    &&& c.wf()
                    &&& c.content() == content@
                    &&& c.cap() == cap
                    &&& c.digest() == digest_text(content@)
                    &&& c.offset() == 0
                    &&& c.sent() == 0
                    &&& c.remaining() == chunks_of(content@, cap as nat)
                } else {
                    chunker matches Err(error) && error == FileError::Unreadable
                },
                Err(reason) => chunker matches Err(error) && error == reason,
            },
    {
        match read {
            Ok(content) => match Chunker::new(content, cap) {
                Some(chunker) => Ok(chunker),
                None => Err(FileError::Unreadable),
            },
            Err(reason) => Err(reason),
        }
    }

    /// The size of the file in bytes.
    pub fn size(&self) -> (n: usize)
        ensures
            n == self.content().len(),
    {
        self.content.len()
    }

    /// The digest of the whole file, as every chunk carries it.
    pub fn file_digest(&self) -> (digest: &String)
        ensures
            digest@ == self.digest(),
    {
        &self.digest
    }

    /// Whether every chunk has gone out.
    pub fn is_done(&self) -> (done: bool)
        requires
            self.wf(),
        ensures
            done == (self.remaining().len() == 0),
    {
        self.offset == self.content.len()
    }

    /// The next chunk, or nothing once the file is exhausted. The chunks come
    /// once, in order; no empty chunk marks the end.
    pub fn next(&mut self) -> (chunk: Option<Packet>)
        requires
            old(self).wf(),
        ensures
            final(self).wf(),
            final(self).content() == old(self).content(),
            final(self).cap() == old(self).cap(),
            final(self).digest() == old(self).digest(),
            match chunk {
                Some(packet) => {
                    &&& old(self).remaining().len() > 0
                    &&& packet@ == old(self).remaining()[0]
                    &&& final(self).remaining() == old(self).remaining().skip(1)
                    &&& final(self).sent() == old(self).sent() + 1
                    &&& 0 < packet.data@.len() <= old(self).cap()
                    &&& is_digest_text(packet.sha@)
                },
                None => {
                    &&& old(self).remaining().len() == 0
                    &&& final(self).offset() == old(self).offset()
                    &&& final(self).sent() == old(self).sent()
                },
            },
    {
        let left: usize = self.content.len() - self.offset;
        if left == 0 {
            return None;
        }
        let n: usize = if left <= self.cap {
            left
        } else {
            self.cap
        };
        let ghost rest = self.content@.skip(self.offset as int);
        proof {
            lemma_numbers_suffice_step(left as nat, self.cap as nat, self.sent as nat);
        }
        let data = copy_range(self.content.as_slice(), self.offset, self.offset + n);
        let packet = Packet::new(self.sent as u32, data, self.digest.clone());
        proof {
            assert(data@ =~= rest.take(n as int));
            assert(rest.skip(n as int) =~= self.content@.skip(self.offset + n));
            assert((seq![packet@] + chunks_from(
                rest.skip(n as int),
                self.cap as nat,
                self.digest@,
                (self.sent + 1) as nat,
            )).skip(1) =~= chunks_from(
                rest.skip(n as int),
                self.cap as nat,
                self.digest@,
                (self.sent + 1) as nat,
            ));
        }
        self.offset = self.offset + n;
        self.sent = self.sent + 1;
        Some(packet)
    }
}

/// Where sequence numbers suffice for what is left and something is left,
/// the next number is a 32-bit number, and the numbers behind it suffice for
/// the rest.
pub proof fn lemma_numbers_suffice_step(left: nat, cap: nat, first: nat)
    requires
        numbers_suffice(left, cap, first),
        left > 0,
    ensures
        first < 0x1_0000_0000,
        left <= cap ==> numbers_suffice(0, cap, first + 1),
        left > cap ==> numbers_suffice((left - cap) as nat, cap, first + 1),
{
    let room = 0x1_0000_0000 - first;
    assert(room > 0) by (nonlinear_arith)
        requires
            left > 0,
            left <= room * cap,
            room >= 0,
            cap > 0,
    {}
    assert((room - 1) * cap == room * cap - cap) by (nonlinear_arith);
    assert((room - 1) * cap >= 0) by (nonlinear_arith)
        requires
            room >= 1,
            cap > 0,
    {}
}

} // verus!
