//! What waits to be written to a shell that is not reading.
//!
//! Input of the user and answers of the terminal wait in the order in which they came.
//! How much may wait is bounded, for each of them and in the number of pieces.

use crate::text::{copy_bytes, push_bytes};
use std::collections::VecDeque;
use vstd::prelude::*;

verus! {

/// The input that may wait.
pub const MAX_PTY_WRITE_QUEUE_BYTES: usize = 8_388_608;

/// The answers that may wait.
pub const MAX_PTY_RESPONSE_QUEUE_BYTES: usize = 8_388_608;

/// The pieces that may wait.
pub const MAX_PTY_QUEUE_ENTRIES: usize = 4096;

/// Pieces of the same class are put together up to this size.
pub const PTY_QUEUE_COALESCE_BYTES: usize = 65_536;

/// What is written at most before other work gets its turn.
pub const PTY_WRITE_DRAIN_BUDGET: usize = 262_144;

/// A piece that waits.
#[derive(Debug, Clone, PartialEq, Eq)]
pub struct PtyWriteChunk {
    pub data: Vec<u8>,
    /// Whether it is an answer of the terminal.
    pub response: bool,
}

/// What a piece holds.
#[verifier::ext_equal]
pub struct ChunkModel {
    pub data: Seq<u8>,
    pub response: bool,
}

pub open spec fn chunk_models(queue: Seq<PtyWriteChunk>) -> Seq<ChunkModel> {
    Seq::new(
        queue.len(),
        |i: int| ChunkModel { data: queue[i].data@, response: queue[i].response },
    )
}

/// Whether bytes go into the last piece: it is of their class and has room.
pub open spec fn joins_last(chunks: Seq<ChunkModel>, len: int, response: bool) -> bool {
    chunks.len() > 0 && chunks.last().response == response && (len == 0 || chunks.last().data.len()
        + len <= PTY_QUEUE_COALESCE_BYTES)
}

/// Whether there is room for one more piece, or bytes need none.
pub open spec fn accepts_entry(chunks: Seq<ChunkModel>, len: int, response: bool) -> bool {
    chunks.len() < MAX_PTY_QUEUE_ENTRIES || joins_last(chunks, len, response)
}

/// The pieces with some bytes behind them.
pub open spec fn with_bytes(chunks: Seq<ChunkModel>, data: Seq<u8>, response: bool) -> Seq<
    ChunkModel,
> {
    if joins_last(chunks, data.len() as int, response) {
        chunks.update(
            chunks.len() - 1,
            ChunkModel { data: chunks.last().data + data, response },
        )
    } else {
        chunks.push(ChunkModel { data, response })
    }
}

/// Bytes with their class.
pub open spec fn tagged(data: Seq<u8>, response: bool) -> Seq<(u8, bool)> {
    Seq::new(data.len(), |i: int| (data[i], response))
}

/// All bytes of some pieces, with their class, in order.
pub open spec fn stream(chunks: Seq<ChunkModel>) -> Seq<(u8, bool)>
    decreases chunks.len(),
{
    if chunks.len() == 0 {
        Seq::empty()
    } else {
        stream(chunks.drop_last()) + tagged(chunks.last().data, chunks.last().response)
    }
}

/// How many bytes of a class some pieces hold.
pub open spec fn held(chunks: Seq<ChunkModel>, response: bool) -> int
    decreases chunks.len(),
{
    if chunks.len() == 0 {
        0
    } else {
        held(chunks.drop_last(), response) + (if chunks.last().response == response {
            chunks.last().data.len() as int
        } else {
            0
        })
    }
}

/// The pieces that wait, and how much of the first is written already.
pub struct QueueModel {
    pub chunks: Seq<ChunkModel>,
    pub offset: int,
}

impl QueueModel {
    /// The bytes that wait, with their class, in order.
    pub open spec fn pending(self) -> Seq<(u8, bool)> {
        stream(self.chunks).subrange(self.offset, stream(self.chunks).len() as int)
    }

    /// How many bytes of a class wait.
    pub open spec fn queued(self, response: bool) -> int {
        held(self.chunks, response) - (if self.chunks.len() > 0 && self.chunks[0].response
            == response {
            self.offset
        } else {
            0
        })
    }

    /// Whether some bytes have room.
    pub open spec fn has_room(self, len: int, response: bool) -> bool {
        self.queued(response) + len <= (if response {
            MAX_PTY_RESPONSE_QUEUE_BYTES
        } else {
            MAX_PTY_WRITE_QUEUE_BYTES
        }) && accepts_entry(self.chunks, len, response)
    }

    /// The queue with some bytes behind what waits.
    pub open spec fn with(self, data: Seq<u8>, response: bool) -> Self {
        QueueModel { chunks: with_bytes(self.chunks, data, response), ..self }
    }

    /// The queue once the first `n` bytes of its first piece are written.
    pub open spec fn written(self, n: int) -> Self {
        if self.chunks.len() > 0 && self.offset + n >= self.chunks[0].data.len() {
            QueueModel { chunks: self.chunks.drop_first(), offset: 0 }
        } else {
            QueueModel { offset: self.offset + n, ..self }
        }
    }

    /// What is written next, where `budget` bytes may be.
    pub open spec fn next(self, budget: int) -> Option<Seq<u8>> {
        if self.chunks.len() == 0 || budget <= 0 {
            None
        } else {
            let data = self.chunks[0].data;
            let end = if self.offset + budget < data.len() {
                self.offset + budget
            } else {
                data.len() as int
            };
            Some(data.subrange(self.offset, end))
        }
    }
}

proof fn lemma_push(chunks: Seq<ChunkModel>, chunk: ChunkModel)
    ensures
        stream(chunks.push(chunk)) == stream(chunks) + tagged(chunk.data, chunk.response),
        held(chunks.push(chunk), true) == held(chunks, true) + (if chunk.response {
            chunk.data.len() as int
        } else {
            0
        }),
        held(chunks.push(chunk), false) == held(chunks, false) + (if chunk.response {
            0
        } else {
            chunk.data.len() as int
        }),
{
    assert(chunks.push(chunk).drop_last() =~= chunks);
}

/// Bytes that are queued come behind all that waits.
proof fn lemma_with_bytes(chunks: Seq<ChunkModel>, data: Seq<u8>, response: bool)
    ensures
        stream(with_bytes(chunks, data, response)) == stream(chunks) + tagged(data, response),
        held(with_bytes(chunks, data, response), response) == held(chunks, response) + data.len(),
        held(with_bytes(chunks, data, response), !response) == held(chunks, !response),
{
    if joins_last(chunks, data.len() as int, response) {
        let last = chunks.last();
        let all = with_bytes(chunks, data, response);
        let joined = ChunkModel { data: last.data + data, response };
        assert(all =~= chunks.drop_last().push(joined));
        assert(chunks =~= chunks.drop_last().push(last));
        lemma_push(chunks.drop_last(), joined);
        lemma_push(chunks.drop_last(), last);
        assert(tagged(last.data + data, response) =~= tagged(last.data, response) + tagged(
            data,
            response,
        ));
        assert(stream(all) =~= stream(chunks) + tagged(data, response));
    } else {
        lemma_push(chunks, ChunkModel { data, response });
    }
}

proof fn lemma_front(chunks: Seq<ChunkModel>)
    requires
        chunks.len() > 0,
    ensures
        stream(chunks) == tagged(chunks[0].data, chunks[0].response) + stream(chunks.drop_first()),
        held(chunks, true) == held(chunks.drop_first(), true) + (if chunks[0].response {
            chunks[0].data.len() as int
        } else {
            0
        }),
        held(chunks, false) == held(chunks.drop_first(), false) + (if chunks[0].response {
            0
        } else {
            chunks[0].data.len() as int
        }),
    decreases chunks.len(),
{
    if chunks.len() == 1 {
        assert(chunks.drop_last() =~= Seq::empty());
        assert(chunks.drop_first() =~= Seq::empty());
        assert(stream(chunks) =~= tagged(chunks[0].data, chunks[0].response) + stream(
            chunks.drop_first(),
        ));
        assert(held(chunks.drop_last(), true) == 0);
        assert(held(chunks.drop_last(), false) == 0);
    } else {
        lemma_front(chunks.drop_last());
        assert(chunks.drop_last().drop_first() =~= chunks.drop_first().drop_last());
        assert(chunks.drop_first().last() == chunks.last());
        let middle = stream(chunks.drop_first().drop_last());
        let head = tagged(chunks[0].data, chunks[0].response);
        let tail = tagged(chunks.last().data, chunks.last().response);
        assert((head + middle) + tail =~= head + (middle + tail));
    }
}

proof fn lemma_held(chunks: Seq<ChunkModel>)
    ensures
        held(chunks, true) >= 0,
        held(chunks, false) >= 0,
        held(chunks, true) + held(chunks, false) == stream(chunks).len(),
    decreases chunks.len(),
{
    if chunks.len() > 0 {
        lemma_held(chunks.drop_last());
    }
}

/// What waits to be written to a shell.
#[derive(Debug)]
pub struct PtyQueue {
    write_queue: VecDeque<PtyWriteChunk>,
    /// What is written already of the first piece.
    write_queue_offset: usize,
    queued_write_bytes: usize,
    queued_response_bytes: usize,
}

impl View for PtyQueue {
    type V = QueueModel;

    closed spec fn view(&self) -> QueueModel {
        QueueModel {
            chunks: chunk_models(self.write_queue@),
            offset: self.write_queue_offset as int,
        }
    }
}

/// Whether there is room for one more piece, or bytes of the given number and class
/// need none.
pub fn queue_accepts_entry(queue: &VecDeque<PtyWriteChunk>, len: usize, response: bool) -> (v: bool)
    ensures
        v == accepts_entry(chunk_models(queue@), len as int, response),
{
    queue.len() < MAX_PTY_QUEUE_ENTRIES || has_room_in_last(queue, len, response)
}

fn has_room_in_last(queue: &VecDeque<PtyWriteChunk>, len: usize, response: bool) -> (v: bool)
    ensures
        v == joins_last(chunk_models(queue@), len as int, response),
{
    if queue.len() == 0 {
        return false;
    }
    let last = &queue[queue.len() - 1];
    let size: usize = last.data.len();
    last.response == response && len <= PTY_QUEUE_COALESCE_BYTES.saturating_sub(size)
}

/// Puts bytes behind all that waits.
pub fn push_queue_owned(queue: &mut VecDeque<PtyWriteChunk>, data: Vec<u8>, response: bool)
    ensures
        chunk_models(final(queue)@) == with_bytes(chunk_models(old(queue)@), data@, response),
{
    if has_room_in_last(queue, data.len(), response) {
        join_last(queue, data.as_slice(), response);
    } else {
        queue.push_back(PtyWriteChunk { data, response });
        proof {
            assert(chunk_models(queue@) =~= with_bytes(chunk_models(old(queue)@), data@, response));
        }
    }
}

fn join_last(queue: &mut VecDeque<PtyWriteChunk>, data: &[u8], response: bool)
    requires
        joins_last(chunk_models(old(queue)@), data@.len() as int, response),
    ensures
        chunk_models(final(queue)@) == with_bytes(chunk_models(old(queue)@), data@, response),
{
    if let Some(last) = queue.pop_back() {
        let mut joined = last.data;
        push_bytes(&mut joined, data);
        queue.push_back(PtyWriteChunk { data: joined, response });
    }
    proof {
        assert(chunk_models(queue@) =~= with_bytes(chunk_models(old(queue)@), data@, response));
    }
}

/// Puts a copy of bytes behind all that waits.
pub fn push_queue_copy(queue: &mut VecDeque<PtyWriteChunk>, data: &[u8], response: bool)
    ensures
        chunk_models(final(queue)@) == with_bytes(chunk_models(old(queue)@), data@, response),
{
    if has_room_in_last(queue, data.len(), response) {
        join_last(queue, data, response);
    } else {
        let copy = copy_bytes(data);
        queue.push_back(PtyWriteChunk { data: copy, response });
        proof {
            assert(chunk_models(queue@) =~= with_bytes(chunk_models(old(queue)@), data@, response));
        }
    }
}

/// What writing to the shell gave.
#[derive(Debug, Clone, Copy, PartialEq, Eq, Structural)]
pub enum WriteResult {
    /// So many bytes were taken.
    Written(usize),
    Failed,
}

/// How writing what waits goes on.
#[derive(Debug, Clone, Copy, PartialEq, Eq, Structural)]
pub enum FlushStep {
    /// So many bytes may still be written.
    Continue(usize),
    /// Nothing more for now.
    Done,
    /// The shell is gone, and what waited with it.
    Failed,
}

impl PtyQueue {
    /// The counters tell what waits, which is within its bounds; the first piece is not
    /// written to its end yet, and no piece is empty.
    pub closed spec fn wf(&self) -> bool {
        &&& self@.chunks.len() <= MAX_PTY_QUEUE_ENTRIES
        &&& forall|i: int| 0 <= i < self@.chunks.len() ==> (#[trigger] self@.chunks[i]).data.len() > 0
        &&& self@.chunks.len() == 0 ==> self@.offset == 0
        &&& self@.chunks.len() > 0 ==> 0 <= self@.offset < self@.chunks[0].data.len()
        &&& self.queued_write_bytes == self@.queued(false)
        &&& self.queued_response_bytes == self@.queued(true)
        &&& self.queued_write_bytes <= MAX_PTY_WRITE_QUEUE_BYTES
        &&& self.queued_response_bytes <= MAX_PTY_RESPONSE_QUEUE_BYTES
    }

    /// Nothing waits.
    pub fn new() -> (queue: Self)
        ensures
            queue.wf(),
            queue@.chunks.len() == 0,
            queue@.pending().len() == 0,
    {
        let queue = PtyQueue {
            write_queue: VecDeque::new(),
            write_queue_offset: 0,
            queued_write_bytes: 0,
            queued_response_bytes: 0,
        };
        proof {
            assert(queue@.chunks =~= Seq::empty());
        }
        queue
    }

    /// Whether anything waits.
    pub fn has_pending_write(&self) -> (v: bool)
        requires
            self.wf(),
        ensures
            v == (self@.pending().len() > 0),
    {
        proof {
            lemma_held(self@.chunks);
            if self@.chunks.len() > 0 {
                lemma_front(self@.chunks);
            }
        }
        self.queued_write_bytes != 0 || self.queued_response_bytes != 0
    }

    /// Whether input of the given length has room.
    pub fn can_queue_user_bytes(&self, len: usize) -> (v: bool)
        requires
            self.wf(),
        ensures
            v == self@.has_room(len as int, false),
    {
        len <= MAX_PTY_WRITE_QUEUE_BYTES - self.queued_write_bytes && queue_accepts_entry(
            &self.write_queue,
            len,
            false,
        )
    }

    /// Puts input behind all that waits, if it has room. Whether it has; there is always
    /// room for nothing.
    pub fn queue_user_bytes(&mut self, data: &[u8]) -> (queued: bool)
        requires
            old(self).wf(),
        ensures
            final(self).wf(),
            queued == (data@.len() == 0 || old(self)@.has_room(data@.len() as int, false)),
            final(self)@ == (if data@.len() > 0 && queued {
                old(self)@.with(data@, false)
            } else {
                old(self)@
            }),
            final(self)@.pending() == (if queued {
                old(self)@.pending() + tagged(data@, false)
            } else {
                old(self)@.pending()
            }),
    {
        if data.len() == 0 {
            proof {
                assert(self@.pending() + tagged(data@, false) =~= self@.pending());
            }
            return true;
        }
        if !self.can_queue_user_bytes(data.len()) {
            return false;
        }
        proof {
            self.lemma_with(data@, false);
        }
        self.queued_write_bytes = self.queued_write_bytes + data.len();
        push_queue_copy(&mut self.write_queue, data, false);
        true
    }

    /// Puts an answer behind all that waits, if it has room. Whether it has.
    pub fn queue_response(&mut self, data: Vec<u8>) -> (queued: bool)
        requires
            old(self).wf(),
        ensures
            final(self).wf(),
            queued == (data@.len() == 0 || old(self)@.has_room(data@.len() as int, true)),
            final(self)@ == (if data@.len() > 0 && queued {
                old(self)@.with(data@, true)
            } else {
                old(self)@
            }),
            final(self)@.pending() == (if queued {
                old(self)@.pending() + tagged(data@, true)
            } else {
                old(self)@.pending()
            }),
    {
        if data.len() == 0 {
            proof {
                assert(self@.pending() + tagged(data@, true) =~= self@.pending());
            }
            return true;
        }
        if data.len() > MAX_PTY_RESPONSE_QUEUE_BYTES - self.queued_response_bytes
            || !queue_accepts_entry(&self.write_queue, data.len(), true) {
            return false;
        }
        proof {
            self.lemma_with(data@, true);
        }
        self.queued_response_bytes = self.queued_response_bytes + data.len();
        push_queue_owned(&mut self.write_queue, data, true);
        true
    }

    proof fn lemma_with(&self, data: Seq<u8>, response: bool)
        requires
            self.wf(),
            data.len() > 0,
            self@.has_room(data.len() as int, response),
        ensures
            self@.with(data, response).pending() == self@.pending() + tagged(data, response),
            self@.with(data, response).queued(response) == self@.queued(response) + data.len(),
            self@.with(data, response).queued(!response) == self@.queued(!response),
            self@.with(data, response).chunks.len() <= MAX_PTY_QUEUE_ENTRIES,
            forall|i: int|
                0 <= i < self@.with(data, response).chunks.len() ==> (#[trigger] self@.with(
                    data,
                    response,
                ).chunks[i]).data.len() > 0,
            self@.with(data, response).chunks.len() > 0,
            0 <= self@.offset < self@.with(data, response).chunks[0].data.len(),
    {
        let m = self@;
        let after = m.with(data, response);
        lemma_with_bytes(m.chunks, data, response);
        lemma_held(m.chunks);
        if m.chunks.len() > 0 {
            lemma_front(m.chunks);
        }
        let all = stream(m.chunks);
        assert(after.pending() =~= m.pending() + tagged(data, response));
        if m.chunks.len() > 0 {
            assert(after.chunks[0].response == m.chunks[0].response);
        }
    }

    /// What is to be written next, where `budget` bytes may be written: what waits
    /// first, and no more than that piece.
    pub fn next_write(&self, budget: usize) -> (bytes: Option<&[u8]>)
        requires
            self.wf(),
        ensures
            bytes is Some <==> self@.next(budget as int) is Some,
            bytes is None <==> self@.pending().len() == 0 || budget == 0,
            bytes matches Some(bytes) ==> {
                &&& self@.next(budget as int) == Some(bytes@)
                &&& 0 < bytes@.len() <= budget
                &&& bytes@.len() <= self@.pending().len()
                &&& forall|i: int|
                    0 <= i < bytes@.len() ==> #[trigger] bytes@[i] == self@.pending()[i].0
            },
    {
        proof {
            lemma_held(self@.chunks);
            if self@.chunks.len() > 0 {
                lemma_front(self@.chunks);
            }
        }
        if self.write_queue.len() == 0 || budget == 0 {
            return None;
        }
        let front = &self.write_queue[0];
        let start: usize = self.write_queue_offset;
        proof {
            assert(self@.chunks[0].data == front.data@);
        }
        let end: usize = if budget < front.data.len() - start {
            start + budget
        } else {
            front.data.len()
        };
        let bytes = vstd::slice::slice_subrange(front.data.as_slice(), start, end);
        proof {
            let data = self@.chunks[0].data;
            let rest = stream(self@.chunks.drop_first());
            assert(stream(self@.chunks) == tagged(data, front.response) + rest);
            assert forall|i: int| 0 <= i < bytes@.len() implies #[trigger] bytes@[i]
                == self@.pending()[i].0 by {
                assert(self@.pending()[i] == stream(self@.chunks)[start + i]);
            }
        }
        Some(bytes)
    }

    /// Takes note of what writing gave of the bytes that were to be written next, where
    /// `budget` bytes were allowed.
    pub fn note_write(&mut self, budget: usize, result: WriteResult) -> (step: FlushStep)
        requires
            old(self).wf(),
            old(self)@.next(budget as int) is Some,
            result matches WriteResult::Written(n) ==> n <= old(self)@.next(
                budget as int,
            )->0.len(),
        ensures
            final(self).wf(),
            match result {
                WriteResult::Written(n) => {
                    &&& final(self)@ == (if n == 0 {
                        old(self)@
                    } else {
                        old(self)@.written(n as int)
                    })
                    &&& final(self)@.pending() == old(self)@.pending().subrange(
                        n as int,
                        old(self)@.pending().len() as int,
                    )
                    &&& step == (if n == 0 {
                        FlushStep::Done
                    } else {
                        FlushStep::Continue((budget - n) as usize)
                    })
                },
                WriteResult::Failed => {
                    &&& final(self)@.chunks.len() == 0
                    &&& final(self)@.pending().len() == 0
                    &&& step == FlushStep::Failed
                },
            },
    {
        let n: usize = match result {
            WriteResult::Written(n) => n,
            WriteResult::Failed => {
                self.write_queue.clear();
                self.write_queue_offset = 0;
                self.queued_write_bytes = 0;
                self.queued_response_bytes = 0;
                proof {
                    assert(self@.chunks =~= Seq::empty());
                }
                return FlushStep::Failed;
            },
        };
        if n == 0 {
            proof {
                assert(self@.pending().subrange(0, self@.pending().len() as int)
                    =~= self@.pending());
            }
            return FlushStep::Done;
        }
        let ghost before = self@;
        proof {
            lemma_held(before.chunks);
            lemma_front(before.chunks);
            lemma_held(before.chunks.drop_first());
            assert(before.chunks[0].data == self.write_queue@[0].data@);
            assert(before.chunks[0].response == self.write_queue@[0].response);
        }
        let front_len: usize = self.write_queue[0].data.len();
        let is_response = self.write_queue[0].response;
        self.write_queue_offset = self.write_queue_offset + n;
        if is_response {
            self.queued_response_bytes = self.queued_response_bytes - n;
        } else {
            self.queued_write_bytes = self.queued_write_bytes - n;
        }
        if self.write_queue_offset == front_len {
            let _ = self.write_queue.pop_front();
            self.write_queue_offset = 0;
            proof {
                assert(self@.chunks =~= before.chunks.drop_first());
                assert forall|i: int| 0 <= i < self@.chunks.len() implies (
                #[trigger] self@.chunks[i]).data.len() > 0 by {
                    assert(self@.chunks[i] == before.chunks[i + 1]);
                }
                assert(self@.chunks.len() > 0 ==> self@.chunks[0].data.len() > 0);
                assert(self@.pending() =~= before.pending().subrange(
                    n as int,
                    before.pending().len() as int,
                ));
            }
        } else {
            proof {
                assert(self@.chunks =~= before.chunks);
                assert(self@.pending() =~= before.pending().subrange(
                    n as int,
                    before.pending().len() as int,
                ));
            }
        }
        FlushStep::Continue(budget - n)
    }
}

/// What waits of each class is within its bound, and so is the number of pieces.
pub proof fn queue_is_bounded(queue: PtyQueue)
    requires
        queue.wf(),
    ensures
        0 <= queue@.queued(false) <= MAX_PTY_WRITE_QUEUE_BYTES,
        0 <= queue@.queued(true) <= MAX_PTY_RESPONSE_QUEUE_BYTES,
        queue@.queued(false) + queue@.queued(true) == queue@.pending().len(),
        queue@.chunks.len() <= MAX_PTY_QUEUE_ENTRIES,
{
    lemma_held(queue@.chunks);
    if queue@.chunks.len() > 0 {
        lemma_front(queue@.chunks);
    }
}

/// What is to be written next are the first bytes that wait, no more than are allowed.
pub proof fn the_oldest_bytes_are_written_first(m: QueueModel, budget: int, i: int)
    requires
        m.chunks.len() > 0,
        0 <= m.offset < m.chunks[0].data.len(),
        budget > 0,
        m.next(budget) is Some,
        0 <= i < m.next(budget)->0.len(),
    ensures
        0 < m.next(budget)->0.len() <= budget,
        m.next(budget)->0.len() <= m.pending().len(),
        m.next(budget)->0[i] == m.pending()[i].0,
{
    lemma_stream_front(m.chunks);
    let first = tagged(m.chunks[0].data, m.chunks[0].response);
    assert(stream(m.chunks)[m.offset + i] == first[m.offset + i]);
}

proof fn lemma_stream_front(chunks: Seq<ChunkModel>)
    requires
        chunks.len() > 0,
    ensures
        stream(chunks) == tagged(chunks[0].data, chunks[0].response) + stream(chunks.drop_first()),
    decreases chunks.len(),
{
    let first = tagged(chunks[0].data, chunks[0].response);
    if chunks.len() == 1 {
        assert(chunks.drop_last() =~= Seq::empty());
        assert(chunks.drop_first() =~= Seq::empty());
        reveal_with_fuel(stream, 2);
        assert(stream(chunks) =~= first + stream(chunks.drop_first()));
    } else {
        lemma_stream_front(chunks.drop_last());
        assert(chunks.drop_last().drop_first() =~= chunks.drop_first().drop_last());
        assert(stream(chunks) =~= first + stream(chunks.drop_first()));
    }
}

/// Bytes that join the queue wait behind all others, whether they join the last piece or
/// make one of their own, and keep their class.
pub proof fn bytes_wait_behind_all_others(m: QueueModel, data: Seq<u8>, response: bool)
    requires
        m.chunks.len() == 0 ==> m.offset == 0,
        m.chunks.len() > 0 ==> 0 <= m.offset < m.chunks[0].data.len(),
    ensures
        m.with(data, response).pending() == m.pending() + Seq::new(
            data.len(),
            |i: int| (data[i], response),
        ),
{
    let s = stream(m.chunks);
    let t = tagged(data, response);
    if joins_last(m.chunks, data.len() as int, response) {
        let init = m.chunks.drop_last();
        let last = m.chunks.last();
        let joined = ChunkModel { data: last.data + data, response };
        assert(m.chunks.update(m.chunks.len() - 1, joined) =~= init.push(joined));
        lemma_push(init, joined);
        assert(tagged(last.data + data, response) =~= tagged(last.data, response) + t);
        assert(stream(m.with(data, response).chunks) =~= s + t);
    } else {
        lemma_push(m.chunks, ChunkModel { data, response });
    }
    assert(stream(m.with(data, response).chunks) == s + t);
    if m.chunks.len() > 0 {
        lemma_stream_front(m.chunks);
    }
    assert(m.with(data, response).pending() =~= m.pending() + t);
}

} // verus!
