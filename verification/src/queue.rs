//! Payload sinks: byte queues with an explicit end-of-stream marker.
//!
//! The dispatch loop only ever produces: it pushes whole payload chunks
//! and marks end-of-stream; it never blocks on a consumer.  Backpressure
//! is expressed through the window protocol, not through this queue.

use vstd::prelude::*;

verus! {

/// A produced-only queue of payload chunks with an end-of-stream flag.
#[derive(Clone, Debug, PartialEq, Eq)]
pub struct BytesQueue {
    chunks: Vec<Vec<u8>>,
    eof: bool,
}

/// Mathematical model of a [`BytesQueue`].
#[verifier::ext_equal]
pub struct BytesQueueView {
    pub chunks: Seq<Seq<u8>>,
    pub eof: bool,
}

impl View for BytesQueue {
    type V = BytesQueueView;

    closed spec fn view(&self) -> BytesQueueView {
        BytesQueueView { chunks: self.chunks@.map_values(|c: Vec<u8>| c@), eof: self.eof }
    }
}

/// Total bytes readable from a queue's chunks.
pub open spec fn spec_queue_total(chunks: Seq<Seq<u8>>) -> int
    decreases chunks.len(),
{
    if chunks.len() == 0 {
        0
    } else {
        chunks[0].len() + spec_queue_total(chunks.drop_first())
    }
}

/// Marking end-of-stream keeps the chunks and sets the flag.
pub open spec fn spec_mark_eof(q: BytesQueueView) -> BytesQueueView {
    BytesQueueView { chunks: q.chunks, eof: true }
}

/// Marking end-of-stream twice is the same as marking it once: the
/// second mark leaves the queue exactly as it was.
pub proof fn lemma_mark_eof_idempotent(q: BytesQueueView)
    ensures
        spec_mark_eof(spec_mark_eof(q)) == spec_mark_eof(q),
{
    assert(spec_mark_eof(spec_mark_eof(q)) =~= spec_mark_eof(q));
}

pub proof fn lemma_queue_total_push(chunks: Seq<Seq<u8>>, c: Seq<u8>)
    ensures
        spec_queue_total(chunks.push(c)) == spec_queue_total(chunks) + c.len(),
    decreases chunks.len(),
{
    if chunks.len() == 0 {
        assert(chunks.push(c)[0] == c);
        assert(chunks.push(c).drop_first() =~= Seq::<Seq<u8>>::empty());
        assert(spec_queue_total(chunks.push(c).drop_first()) == 0);
        assert(spec_queue_total(chunks.push(c)) == c.len() + 0);
    } else {
        assert(chunks.push(c)[0] == chunks[0]);
        assert(chunks.push(c).drop_first() =~= chunks.drop_first().push(c));
        lemma_queue_total_push(chunks.drop_first(), c);
        assert(spec_queue_total(chunks.push(c)) == chunks[0].len() + spec_queue_total(
            chunks.drop_first().push(c),
        ));
    }
}

pub proof fn lemma_queue_total_nonneg(chunks: Seq<Seq<u8>>)
    ensures
        spec_queue_total(chunks) >= 0,
    decreases chunks.len(),
{
    if chunks.len() > 0 {
        lemma_queue_total_nonneg(chunks.drop_first());
    }
}

impl BytesQueue {
    /// An empty queue, not yet at end-of-stream.
    pub fn new() -> (r: BytesQueue)
        ensures
            r@.chunks == Seq::<Seq<u8>>::empty(),
            !r@.eof,
    {
        let r = BytesQueue { chunks: Vec::new(), eof: false };
        proof {
            assert(r@.chunks =~= Seq::<Seq<u8>>::empty());
        }
        r
    }

    /// Appends one payload chunk.  The producer never pushes past
    /// end-of-stream: the dispatch loop drops payload for a sink that
    /// has already been closed.
    pub fn push_bytes(&mut self, bytes: Vec<u8>)
        requires
            !old(self)@.eof,
        ensures
            final(self)@.chunks == old(self)@.chunks.push(bytes@),
            !final(self)@.eof,
    {
        self.chunks.push(bytes);
        proof {
            assert(self@.chunks =~= old(self)@.chunks.push(self.chunks@[self.chunks@.len()
                - 1]@));
        }
    }

    /// Marks end-of-stream; marking an already-closed queue changes
    /// nothing.
    pub fn mark_eof(&mut self)
        ensures
            final(self)@ == spec_mark_eof(old(self)@),
    {
        self.eof = true;
        proof {
            assert(self@ =~= spec_mark_eof(old(self)@));
        }
    }

    /// Whether end-of-stream has been marked.
    pub fn is_eof(&self) -> (r: bool)
        ensures
            r == self@.eof,
    {
        self.eof
    }

    /// How many chunks are queued.
    pub fn chunk_count(&self) -> (r: usize)
        ensures
            r == self@.chunks.len(),
    {
        self.chunks.len()
    }

    /// Total readable bytes over all queued chunks, saturating at the
    /// counter's top.
    pub fn readable_bytes(&self) -> (r: u64)
        ensures
            spec_queue_total(self@.chunks) <= u64::MAX ==> r == spec_queue_total(self@.chunks),
            spec_queue_total(self@.chunks) > u64::MAX ==> r == u64::MAX,
    {
        let mut acc: u64 = 0;
        let mut i: usize = 0;
        proof {
            assert(self@.chunks.take(0) =~= Seq::<Seq<u8>>::empty());
        }
        while i < self.chunks.len()
            invariant
                i <= self.chunks@.len(),
                self@.chunks.len() == self.chunks@.len(),
                spec_queue_total(self@.chunks.take(i as int)) <= u64::MAX ==> acc
                    == spec_queue_total(self@.chunks.take(i as int)),
                spec_queue_total(self@.chunks.take(i as int)) > u64::MAX ==> acc == u64::MAX,
            decreases self.chunks@.len() - i,
        {
            proof {
                assert(self@.chunks.take(i + 1) =~= self@.chunks.take(i as int).push(
                    self@.chunks[i as int],
                ));
                lemma_queue_total_push(self@.chunks.take(i as int), self@.chunks[i as int]);
                lemma_queue_total_nonneg(self@.chunks.take(i as int));
                assert(self@.chunks[i as int] == self.chunks@[i as int]@);
            }
            let l = self.chunks[i].len() as u64;
            if acc <= u64::MAX - l {
                acc = acc + l;
            } else {
                acc = u64::MAX;
            }
            i += 1;
        }
        proof {
            assert(self@.chunks.take(i as int) =~= self@.chunks);
        }
        acc
    }

    /// Takes the oldest queued chunk, if any: the consumer side.
    pub fn pop_chunk(&mut self) -> (r: Option<Vec<u8>>)
        ensures
            old(self)@.chunks.len() == 0 ==> r is None && final(self)@ == old(self)@,
            old(self)@.chunks.len() > 0 ==> (r matches Some(c) && c@ == old(self)@.chunks[0]
                && final(self)@.chunks == old(self)@.chunks.drop_first() && final(self)@.eof == old(
                self,
            )@.eof),
    {
        if self.chunks.len() == 0 {
            proof {
                assert(self@ =~= old(self)@);
            }
            None
        } else {
            let c = self.chunks.remove(0);
            proof {
                assert(self@.chunks =~= old(self)@.chunks.drop_first());
            }
            Some(c)
        }
    }
}

} // verus!
