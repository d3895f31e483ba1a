//! Resumable stream transfer: state machines that decide, from the
//! outcome of each underlying read or write call, how an exact transfer
//! proceeds.
//!
//! The caller owns the stream and the buffer; it reports every outcome as
//! a [`StreamEvent`] and obeys the returned [`StreamStep`].  A transient
//! interruption never consumes progress, so the same operation can be
//! resumed later from the recorded position.

use vstd::prelude::*;

verus! {

/// The size of the scratch buffer used when draining or zero-filling a
/// stream in bounded chunks.
pub const CHUNK_LEN: usize = 4096;

/// The outcome of one underlying read or write call on the stream.
#[derive(Debug, Clone, Copy, PartialEq, Eq)]
pub enum StreamEvent {
    /// The call moved this many bytes (a read filled them, or a write
    /// accepted them).  Zero bytes means the stream ended early.
    Moved(usize),
    /// The call failed with a transient interruption and moved nothing.
    Interrupted,
    /// The call failed with any other error.
    Failed,
}

/// What the caller must do next after reporting an event.
#[derive(Debug, Clone, Copy, PartialEq, Eq)]
pub enum StreamStep {
    /// Bytes remain: issue the next underlying call at the new position.
    More,
    /// The whole transfer is complete.
    Done,
    /// Retry the same call: no progress was consumed and no progress may
    /// be reported.
    Retry,
    /// The stream ended before the transfer was complete: an unexpected
    /// end of input for a read, a zero-byte acceptance for a write.
    Ended,
    /// Stop and propagate the stream's own error; the progress made so
    /// far stays valid.
    Abort,
}

/// The progress of one exact transfer of `total` bytes.
#[derive(Debug, Clone, Copy, PartialEq, Eq)]
pub struct Transfer {
    /// The number of bytes the whole operation must move.
    pub total: usize,
    /// The number of bytes moved so far.
    pub pos: usize,
}

impl Transfer {
    /// The position never passes the requested total.
    pub open spec fn wf(&self) -> bool {
        self.pos <= self.total
    }

    /// An event the stream can actually produce at this state: a single
    /// call never moves more than the bytes still missing.
    pub open spec fn event_ok(&self, ev: StreamEvent) -> bool {
        match ev {
            StreamEvent::Moved(n) => n <= self.total - self.pos,
            StreamEvent::Interrupted => true,
            StreamEvent::Failed => true,
        }
    }

    /// How one event advances the transfer.
    pub open spec fn step_spec(t: Transfer, ev: StreamEvent) -> (Transfer, StreamStep)
        recommends
            t.wf(),
            t.event_ok(ev),
    {
        match ev {
            StreamEvent::Moved(n) => if n == 0 {
                (t, StreamStep::Ended)
            } else {
                let t2 = Transfer { total: t.total, pos: (t.pos + n) as usize };
                (t2, if t2.pos == t2.total {
                    StreamStep::Done
                } else {
                    StreamStep::More
                })
            },
            StreamEvent::Interrupted => (t, StreamStep::Retry),
            StreamEvent::Failed => (t, StreamStep::Abort),
        }
    }

    /// Starts an exact transfer of `total` bytes.
    pub fn new(total: usize) -> (r: Transfer)
        ensures
            r.total == total,
            r.pos == 0,
            r.wf(),
    {
        Transfer { total, pos: 0 }
    }

    /// The number of bytes still missing.
    pub fn remaining(&self) -> (r: usize)
        requires
            self.wf(),
        ensures
            r == self.total - self.pos,
    {
        self.total - self.pos
    }

    /// Whether the transfer is complete.
    pub fn is_done(&self) -> (r: bool)
        ensures
            r <==> self.pos == self.total,
    {
        self.pos == self.total
    }

    /// Applies the outcome of one underlying call: an interruption or a
    /// failure leaves the position unchanged, and moved bytes advance it
    /// by exactly their count.
    pub fn apply(&mut self, ev: StreamEvent) -> (r: StreamStep)
        requires
            old(self).wf(),
            old(self).event_ok(ev),
        ensures
            final(self).wf(),
            (*final(self), r) == Transfer::step_spec(*old(self), ev),
    {
        match ev {
            StreamEvent::Moved(n) => {
                if n == 0 {
                    StreamStep::Ended
                } else {
                    self.pos = self.pos + n;
                    if self.pos == self.total {
                        StreamStep::Done
                    } else {
                        StreamStep::More
                    }
                }
            },
            StreamEvent::Interrupted => StreamStep::Retry,
            StreamEvent::Failed => StreamStep::Abort,
        }
    }
}

/// The progress of a chunked drain or zero-fill of a requested length,
/// processed through a bounded scratch buffer of [`CHUNK_LEN`] bytes.
#[derive(Debug, Clone, Copy, PartialEq, Eq)]
pub struct Chunked {
    /// The number of bytes still to drain or fill.
    pub remaining: usize,
}

impl Chunked {
    /// Starts a chunked transfer of `len` bytes.
    pub fn new(len: usize) -> (r: Chunked)
        ensures
            r.remaining == len,
    {
        Chunked { remaining: len }
    }

    /// Whether anything is still to be transferred.
    pub fn is_done(&self) -> (r: bool)
        ensures
            r <==> self.remaining == 0,
    {
        self.remaining == 0
    }

    /// The size of the next chunk: the scratch-buffer size, or what is
    /// left when that is smaller.
    pub fn next_chunk(&self) -> (r: usize)
        ensures
            r == if self.remaining < CHUNK_LEN {
                self.remaining as int
            } else {
                CHUNK_LEN as int
            },
            r <= self.remaining,
    {
        if self.remaining < CHUNK_LEN {
            self.remaining
        } else {
            CHUNK_LEN
        }
    }

    /// Records `n` transferred bytes.
    pub fn consume(&mut self, n: usize)
        requires
            n <= old(self).remaining,
        ensures
            final(self).remaining == old(self).remaining - n,
    {
        self.remaining = self.remaining - n;
    }
}

// ---------------------------------------------------------------------------
// Resumability, over whole event sequences
// ---------------------------------------------------------------------------

/// The state after a sequence of events.
pub open spec fn fold_steps(t: Transfer, evs: Seq<StreamEvent>) -> Transfer
    decreases evs.len(),
{
    if evs.len() == 0 {
        t
    } else {
        fold_steps(Transfer::step_spec(t, evs[0]).0, evs.skip(1))
    }
}

/// Every event of the sequence is producible at the state it meets.
pub open spec fn events_ok(t: Transfer, evs: Seq<StreamEvent>) -> bool
    decreases evs.len(),
{
    if evs.len() == 0 {
        true
    } else {
        t.event_ok(evs[0]) && events_ok(Transfer::step_spec(t, evs[0]).0, evs.skip(1))
    }
}

/// The bytes the stream moved over a sequence of events.
pub open spec fn moved_total(evs: Seq<StreamEvent>) -> int
    decreases evs.len(),
{
    if evs.len() == 0 {
        0
    } else {
        (match evs[0] {
            StreamEvent::Moved(n) => n as int,
            StreamEvent::Interrupted => 0,
            StreamEvent::Failed => 0,
        }) + moved_total(evs.skip(1))
    }
}

/// Resumable transfer under interruption: whatever events the stream
/// produces — transient interruptions and failures included, in any
/// interleaving — the recorded position advances by exactly the bytes the
/// stream moved, with none duplicated and none skipped.  In particular, a
/// transfer whose events move `total` bytes in all ends at `pos == total`,
/// and the progress reported to the caller equals the bytes consumed.
pub proof fn lemma_resumable_progress(t: Transfer, evs: Seq<StreamEvent>)
    requires
        t.wf(),
        events_ok(t, evs),
    ensures
        fold_steps(t, evs).total == t.total,
        fold_steps(t, evs).pos == t.pos + moved_total(evs),
    decreases evs.len(),
{
    if evs.len() > 0 {
        let t2 = Transfer::step_spec(t, evs[0]).0;
        lemma_resumable_progress(t2, evs.skip(1));
    }
}

} // verus!
