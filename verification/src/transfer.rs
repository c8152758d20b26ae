//! A transfer from end to end: what the chunker sends, the assembler puts
//! together again.

use crate::assembler::{after_offer, finished, fresh, is_due, AssemblerView, TransferError};
use crate::chunker::{chunks_from, chunks_of, lemma_numbers_suffice_step, numbers_suffice};
use crate::digest::digest_text;
use crate::packet::PacketView;
use vstd::prelude::*;

verus! {

/// The state after the chunks were offered in turn.
pub open spec fn feed(state: AssemblerView, chunks: Seq<PacketView>) -> AssemblerView
    decreases chunks.len(),
{
    if chunks.len() == 0 {
        state
    } else {
        feed(after_offer(state, chunks[0]), chunks.skip(1))
    }
}

/// What a new assembler makes of the chunks, offered in turn and then
/// finished.
pub open spec fn assemble(chunks: Seq<PacketView>) -> Result<Seq<u8>, TransferError> {
    finished(feed(fresh(), chunks))
}

/// The payloads of the chunks, one behind the other, in the order of the
/// chunks.
pub open spec fn joined(chunks: Seq<PacketView>) -> Seq<u8>
    decreases chunks.len(),
{
    if chunks.len() == 0 {
        Seq::empty()
    } else {
        chunks[0].data + joined(chunks.skip(1))
    }
}

/// Whether each chunk has its place as its sequence number, counted from
/// `first` on.
pub open spec fn in_sequence(chunks: Seq<PacketView>, first: nat) -> bool {
    forall|i: int| 0 <= i < chunks.len() ==> (#[trigger] chunks[i]).sequence_number == first + i
}

proof fn lemma_aborted_stays_aborted(state: AssemblerView, chunks: Seq<PacketView>)
    requires
        state.aborted,
    ensures
        feed(state, chunks).aborted,
    decreases chunks.len(),
{
    if chunks.len() > 0 {
        lemma_aborted_stays_aborted(after_offer(state, chunks[0]), chunks.skip(1));
    }
}

proof fn lemma_feed_in_sequence(state: AssemblerView, chunks: Seq<PacketView>)
    requires
        !state.aborted,
    ensures
        feed(state, chunks).aborted <==> !in_sequence(chunks, state.expected),
        !feed(state, chunks).aborted ==> feed(state, chunks).bytes == state.bytes + joined(chunks)
            && feed(state, chunks).expected == state.expected + chunks.len(),
    decreases chunks.len(),
{
    if chunks.len() == 0 {
        assert(state.bytes + joined(chunks) =~= state.bytes);
    } else if !is_due(state, chunks[0]) {
        lemma_aborted_stays_aborted(after_offer(state, chunks[0]), chunks.skip(1));
    } else {
        let next = after_offer(state, chunks[0]);
        let rest = chunks.skip(1);
        lemma_feed_in_sequence(next, rest);
        if in_sequence(rest, next.expected) {
            assert forall|i: int| 0 <= i < chunks.len() implies (#[trigger] chunks[i]).sequence_number
                == state.expected + i by {
                if i > 0 {
                    assert(chunks[i] == rest[i - 1]);
                }
            }
        }
        if in_sequence(chunks, state.expected) {
            assert forall|i: int| 0 <= i < rest.len() implies (#[trigger] rest[i]).sequence_number
                == next.expected + i by {
                assert(rest[i] == chunks[i + 1]);
            }
        }
    }
}

/// Chunks are put together exactly when each comes in its turn: the first
/// with number 0, each later one with the number behind that of the chunk
/// before it. Offered in any other order they give the out-of-order error,
/// whatever is offered afterwards. What is put together is the payloads in
/// the order of arrival, never in another.
pub proof fn lemma_out_of_order_is_refused(chunks: Seq<PacketView>)
    ensures
        assemble(chunks) == Err::<Seq<u8>, TransferError>(TransferError::OutOfOrder)
            <==> !in_sequence(chunks, 0),
        assemble(chunks) matches Ok(bytes) ==> bytes == joined(chunks),
{
    lemma_feed_in_sequence(fresh(), chunks);
}

proof fn lemma_feed_chunks(state: AssemblerView, rest: Seq<u8>, cap: nat, digest: Seq<char>)
    requires
        numbers_suffice(rest.len(), cap, state.expected),
        state.agree,
        state.expected > 0 ==> state.carried == Some(digest),
        !state.aborted,
    ensures
        ({
            let end = feed(state, chunks_from(rest, cap, digest, state.expected));
            &&& !end.aborted
            &&& end.bytes == state.bytes + rest
            &&& end.agree
            &&& end.expected > 0 ==> end.carried == Some(digest)
            &&& end.expected == 0 <==> (state.expected == 0 && rest.len() == 0)
        }),
    decreases rest.len(),
{
    let chunks = chunks_from(rest, cap, digest, state.expected);
    if rest.len() == 0 {
        assert(state.bytes + rest =~= state.bytes);
    } else {
        let n = if rest.len() <= cap {
            rest.len()
        } else {
            cap
        };
        lemma_numbers_suffice_step(rest.len(), cap, state.expected);
        let head = chunks[0];
        let tail = chunks_from(rest.skip(n as int), cap, digest, state.expected + 1);
        assert(chunks.skip(1) =~= tail);
        assert(is_due(state, head));
        let next = after_offer(state, head);
        lemma_feed_chunks(next, rest.skip(n as int), cap, digest);
    }
}

/// Chunking a file and assembling the chunks gives the file back, byte for
/// byte, whatever its size and whatever the payload limit: the digest of what
/// was assembled is the digest that the chunks carried.
pub proof fn lemma_assemble_of_chunks(content: Seq<u8>, cap: nat)
    requires
        numbers_suffice(content.len(), cap, 0),
    ensures
        assemble(chunks_of(content, cap)) == Ok::<Seq<u8>, TransferError>(content),
{
    lemma_feed_chunks(fresh(), content, cap, digest_text(content));
}

} // verus!
