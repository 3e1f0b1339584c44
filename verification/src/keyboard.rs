//! Bounded single-producer/single-consumer ring of raw scancode bytes.
//!
//! The keyboard interrupt handler pushes one byte per scancode; the shell
//! loop pops them, under an interrupt-disabled critical section that the
//! caller supplies.  The ring holds 256 slots of which 255 are usable: one
//! slot stays free so that a full ring can be told apart from an empty one.

use vstd::prelude::*;

verus! {

/// Fixed-capacity scancode ring buffer shared between the keyboard
/// interrupt handler (producer) and the shell loop (consumer).
pub struct ScancodeStream {
    buffer: [u8; 256],
    head: usize,
    tail: usize,
}

impl ScancodeStream {
    /// Both indices stay inside the ring.
    pub closed spec fn wf(self) -> bool {
        self.head < 256 && self.tail < 256
    }

    /// The bytes currently buffered, oldest first.
    pub closed spec fn contents(self) -> Seq<u8> {
        if self.head <= self.tail {
            self.buffer@.subrange(self.head as int, self.tail as int)
        } else {
            self.buffer@.subrange(self.head as int, 256) + self.buffer@.subrange(
                0,
                self.tail as int,
            )
        }
    }

    /// The ring never buffers more than 255 bytes.
    pub proof fn lemma_contents_bounded(self)
        requires
            self.wf(),
        ensures
            self.contents().len() <= 255,
    {
    }

    /// A fresh queue is empty, with zeroed storage.
    pub fn new() -> (q: ScancodeStream)
        ensures
            q.wf(),
            q.contents() == Seq::<u8>::empty(),
    {
        let q = ScancodeStream { buffer: [0; 256], head: 0, tail: 0 };
        proof {
            assert(q.contents() =~= Seq::<u8>::empty());
        }
        q
    }

    /// Append one byte.  On a full ring the push fails (the caller, an
    /// interrupt handler, discards the byte) and the queue is unchanged.
    /// Runs in bounded time and never allocates.
    pub fn push(&mut self, scancode: u8) -> (r: Result<(), ()>)
        requires
            old(self).wf(),
        ensures
            final(self).wf(),
            old(self).contents().len() == 255 ==> r == Err::<(), ()>(()) && *final(self) == *old(
                self,
            ),
            old(self).contents().len() < 255 ==> r == Ok::<(), ()>(()) && final(self).contents()
                == old(self).contents().push(scancode),
    {
        if (self.tail + 1) % 256 == self.head {
            proof {
                assert(old(self).contents().len() == 255);
            }
            return Err(());
        }
        proof {
            assert(old(self).contents().len() < 255);
        }
        self.buffer[self.tail] = scancode;
        self.tail = (self.tail + 1) % 256;
        proof {
            assert(final(self).contents() =~= old(self).contents().push(scancode));
        }
        Ok(())
    }

    /// Remove and return the oldest byte, or report an empty queue.
    /// The caller must hold interrupts disabled for the duration of the call.
    pub fn pop(&mut self) -> (r: Option<u8>)
        requires
            old(self).wf(),
        ensures
            final(self).wf(),
            old(self).contents().len() == 0 ==> r == None::<u8> && *final(self) == *old(self),
            old(self).contents().len() > 0 ==> r == Some(old(self).contents().first())
                && final(self).contents() == old(self).contents().drop_first(),
    {
        if self.head == self.tail {
            return None;
        }
        let scancode = self.buffer[self.head];
        self.head = (self.head + 1) % 256;
        proof {
            assert(final(self).contents() =~= old(self).contents().drop_first());
        }
        Some(scancode)
    }
}

/// One call in a history of queue operations.
pub enum QueueOp {
    Push(u8),
    Pop,
}

/// Ghost summary of a run of queue calls: the bytes currently buffered, the
/// bytes accepted by successful pushes, and the bytes returned by successful
/// pops, each oldest first.
pub struct QueueHistory {
    pub contents: Seq<u8>,
    pub pushed: Seq<u8>,
    pub popped: Seq<u8>,
}

/// The history of a queue fresh from `ScancodeStream::new`.
pub open spec fn history_init() -> QueueHistory {
    QueueHistory { contents: Seq::empty(), pushed: Seq::empty(), popped: Seq::empty() }
}

/// How one call changes the history.  A push onto a full ring and a pop from
/// an empty ring leave the queue unchanged, exactly as the contracts of
/// `push` and `pop` state.
pub open spec fn history_step(h: QueueHistory, op: QueueOp) -> QueueHistory {
    match op {
        QueueOp::Push(b) => if h.contents.len() < 255 {
            QueueHistory {
                contents: h.contents.push(b),
                pushed: h.pushed.push(b),
                popped: h.popped,
            }
        } else {
            h
        },
        QueueOp::Pop => if h.contents.len() > 0 {
            QueueHistory {
                contents: h.contents.drop_first(),
                pushed: h.pushed,
                popped: h.popped.push(h.contents.first()),
            }
        } else {
            h
        },
    }
}

/// The history after a whole sequence of calls, starting from an empty queue.
pub open spec fn history_run(ops: Seq<QueueOp>) -> QueueHistory
    decreases ops.len(),
{
    if ops.len() == 0 {
        history_init()
    } else {
        history_step(history_run(ops.drop_last()), ops.last())
    }
}

/// Law: after any sequence of pushes and pops starting from an empty queue,
/// the bytes returned by pops, followed by the bytes still buffered, are
/// exactly the bytes accepted by pushes, in order.  In particular the popped
/// bytes are a prefix of the pushed bytes: the queue delivers scancodes in
/// strict FIFO order and never reorders them.
pub proof fn lemma_fifo_order(ops: Seq<QueueOp>)
    ensures
        history_run(ops).pushed == history_run(ops).popped + history_run(ops).contents,
        history_run(ops).popped == history_run(ops).pushed.take(
            history_run(ops).popped.len() as int,
        ),
    decreases ops.len(),
{
    if ops.len() == 0 {
        assert(history_run(ops).pushed =~= history_run(ops).popped + history_run(ops).contents);
    } else {
        let prev = history_run(ops.drop_last());
        lemma_fifo_order(ops.drop_last());
        match ops.last() {
            QueueOp::Push(b) => {
                if prev.contents.len() < 255 {
                    assert(prev.pushed.push(b) =~= prev.popped + prev.contents.push(b));
                }
            },
            QueueOp::Pop => {
                if prev.contents.len() > 0 {
                    assert(prev.pushed =~= prev.popped.push(prev.contents.first())
                        + prev.contents.drop_first());
                }
            },
        }
    }
    let h = history_run(ops);
    assert(h.popped =~= h.pushed.take(h.popped.len() as int));
}

/// Law: if a run has seen `k` successful pushes and `p` successful pops,
/// then exactly `k - p` bytes are buffered, and `0 <= k - p <= 255`.
pub proof fn lemma_buffered_count(ops: Seq<QueueOp>)
    ensures
        history_run(ops).popped.len() <= history_run(ops).pushed.len(),
        history_run(ops).contents.len() == history_run(ops).pushed.len() - history_run(
            ops,
        ).popped.len(),
        history_run(ops).contents.len() <= 255,
    decreases ops.len(),
{
    lemma_fifo_order(ops);
    if ops.len() > 0 {
        lemma_buffered_count(ops.drop_last());
    }
}

} // verus!
