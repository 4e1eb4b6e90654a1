//! The bookkeeping of one worker: a byte range, the pieces received for it
//! and the writes that put them into the destination file.
//!
//! A worker does no I/O. Its caller fetches the range, asks `piece` where each
//! received piece belongs, writes it there and reports the result with
//! `wrote`; `close` ends the worker when its stream has ended or broken.

use vstd::prelude::*;
use crate::ranges::ChunkRange;

verus! {

/// Why a worker did not deliver its range.
#[derive(Clone, Copy, Debug, PartialEq, Eq, Structural)]
pub enum Fault {
    /// The fetch ended, broke or ran over before the range was complete.
    Transfer,
    /// Every byte arrived, but a write to the file failed.
    Write,
}

/// Where a worker stands.
#[derive(Clone, Copy, Debug, PartialEq, Eq, Structural)]
pub enum WorkerStatus {
    /// Bytes of the range, or reports on writes, are still expected.
    Active,
    /// The whole range was received and written.
    Done,
    /// The worker is over and its range is not wholly in the file.
    Failed(Fault),
}

/// What to do with a piece that the network delivered.
#[derive(Clone, Copy, Debug, PartialEq, Eq, Structural)]
pub enum PieceAction {
    /// Write the piece's `len` bytes at `offset`, then report with `wrote`.
    Write { offset: u64, len: u64 },
    /// The piece is empty: nothing to write, read on.
    Skip,
    /// The piece is not wanted: drop it and stop reading.
    Stop,
}

/// The state of one worker.
#[derive(Clone, Copy, Debug, PartialEq, Eq, Structural)]
pub struct ChunkWorker {
    /// The bytes this worker fetches.
    pub range: ChunkRange,
    /// Bytes of the range accepted from the network so far.
    pub received: u64,
    /// Bytes of the range whose write succeeded.
    pub written: u64,
    /// Bytes handed out for writing whose result is not reported yet.
    pub pending: u64,
    /// Whether the fetch was given up before the range was complete.
    pub stopped: bool,
}

impl ChunkWorker {
    /// The state is consistent: the range is not empty and its length fits a
    /// `u64`, no more was received than the range holds, written and pending
    /// bytes are among the received ones, and a fetch is only given up while
    /// bytes are missing.
    pub open spec fn wf(self) -> bool {
        &&& self.range.fits()
        &&& self.written + self.pending <= self.received <= self.range.spec_len()
        &&& self.stopped ==> self.received < self.range.spec_len()
    }

    /// A fresh worker for `range`.
    pub open spec fn fresh(range: ChunkRange) -> ChunkWorker {
        ChunkWorker { range, received: 0, written: 0, pending: 0, stopped: false }
    }

    /// Where the worker stands.
    pub open spec fn status(self) -> WorkerStatus {
        if self.stopped {
            WorkerStatus::Failed(Fault::Transfer)
        } else if self.received == self.range.spec_len() && self.pending == 0 {
            if self.written == self.range.spec_len() {
                WorkerStatus::Done
            } else {
                WorkerStatus::Failed(Fault::Write)
            }
        } else {
            WorkerStatus::Active
        }
    }

    /// Whether the worker still takes pieces: it was not given up and bytes
    /// of its range are missing.
    pub open spec fn reading(self) -> bool {
        !self.stopped && self.received < self.range.spec_len()
    }

    /// What `piece` answers for a piece of `len` bytes.
    pub open spec fn piece_action(self, len: u64) -> PieceAction {
        if !self.reading() {
            PieceAction::Stop
        } else if len == 0 {
            PieceAction::Skip
        } else if self.received + len > self.range.spec_len() {
            PieceAction::Stop
        } else {
            PieceAction::Write { offset: (self.range.start + self.received) as u64, len }
        }
    }

    /// The worker after `piece` for a piece of `len` bytes: a piece that fits
    /// is counted as received and pending; one that runs over the range ends
    /// the fetch.
    pub open spec fn after_piece(self, len: u64) -> ChunkWorker {
        if !self.reading() || len == 0 {
            self
        } else if self.received + len > self.range.spec_len() {
            ChunkWorker { stopped: true, ..self }
        } else {
            ChunkWorker {
                received: (self.received + len) as u64,
                pending: (self.pending + len) as u64,
                ..self
            }
        }
    }

    /// The worker after `wrote` for a write of `len` bytes: they are no
    /// longer pending, and written if the write succeeded. A report of more
    /// bytes than are pending changes nothing.
    pub open spec fn after_write(self, len: u64, ok: bool) -> ChunkWorker {
        if len > self.pending {
            self
        } else {
            ChunkWorker {
                pending: (self.pending - len) as u64,
                written: if ok {
                    (self.written + len) as u64
                } else {
                    self.written
                },
                ..self
            }
        }
    }

    /// Bytes that `wrote` adds to the progress count.
    pub open spec fn write_gain(self, len: u64, ok: bool) -> u64 {
        if ok && len <= self.pending {
            len
        } else {
            0
        }
    }

    /// The worker after `close`: the fetch is given up if bytes are missing,
    /// and writes that were never reported count as not made.
    pub open spec fn after_close(self) -> ChunkWorker {
        ChunkWorker {
            stopped: self.stopped || self.received < self.range.spec_len(),
            pending: 0,
            ..self
        }
    }

    /// Starts a worker for `range`.
    pub fn new(range: ChunkRange) -> (worker: ChunkWorker)
        requires
            range.fits(),
        ensures
            worker == ChunkWorker::fresh(range),
            worker.wf(),
            worker.status() == WorkerStatus::Active,
    {
        ChunkWorker { range, received: 0, written: 0, pending: 0, stopped: false }
    }

    /// Number of bytes in the worker's range.
    pub fn range_len(&self) -> (len: u64)
        requires
            self.wf(),
        ensures
            len == self.range.spec_len(),
    {
        self.range.end - self.range.start + 1
    }

    /// Where the worker stands.
    pub fn current_status(&self) -> (status: WorkerStatus)
        requires
            self.wf(),
        ensures
            status == self.status(),
    {
        let len = self.range_len();
        if self.stopped {
            WorkerStatus::Failed(Fault::Transfer)
        } else if self.received == len && self.pending == 0 {
            if self.written == len {
                WorkerStatus::Done
            } else {
                WorkerStatus::Failed(Fault::Write)
            }
        } else {
            WorkerStatus::Active
        }
    }

    /// Takes a piece of `len` bytes from the network and says where it goes.
    /// Pieces follow each other without gap from the start of the range, and
    /// a write never leaves the range.
    pub fn piece(&mut self, len: u64) -> (action: PieceAction)
        requires
            old(self).wf(),
        ensures
            final(self).wf(),
            *final(self) == old(self).after_piece(len),
            action == old(self).piece_action(len),
            action matches PieceAction::Write { offset, len: n } ==> {
                &&& n == len
                &&& offset == old(self).range.start + old(self).received
                &&& old(self).range.start <= offset
                &&& offset + n - 1 <= old(self).range.end
            },
    {
        let total = self.range_len();
        if self.stopped || self.received >= total {
            PieceAction::Stop
        } else if len == 0 {
            PieceAction::Skip
        } else if len > total - self.received {
            self.stopped = true;
            PieceAction::Stop
        } else {
            let offset = self.range.start + self.received;
            self.received = self.received + len;
            self.pending = self.pending + len;
            PieceAction::Write { offset, len }
        }
    }

    /// Records the result of writing `len` bytes of a piece handed out by
    /// `piece`, and returns the number of bytes that this adds to the
    /// progress count: `len` for a write that succeeded, 0 for one that
    /// failed or was never handed out.
    pub fn wrote(&mut self, len: u64, ok: bool) -> (gain: u64)
        requires
            old(self).wf(),
        ensures
            final(self).wf(),
            *final(self) == old(self).after_write(len, ok),
            gain == old(self).write_gain(len, ok),
            final(self).written == old(self).written + gain,
    {
        if len > self.pending {
            0
        } else {
            self.pending = self.pending - len;
            if ok {
                self.written = self.written + len;
                len
            } else {
                0
            }
        }
    }

    /// Ends the worker: no piece and no report will follow. Afterwards the
    /// worker is `Done` or `Failed`.
    pub fn close(&mut self)
        requires
            old(self).wf(),
        ensures
            final(self).wf(),
            *final(self) == old(self).after_close(),
            final(self).status() != WorkerStatus::Active,
            old(self).status() != WorkerStatus::Active ==> final(self).status() == old(
                self,
            ).status(),
    {
        let total = self.range_len();
        if self.received < total {
            self.stopped = true;
        }
        self.pending = 0;
    }
}

/// A worker is `Done` exactly when every byte of its range is written.
pub proof fn lemma_done_iff_all_written(w: ChunkWorker)
    requires
        w.wf(),
    ensures
        w.written <= w.range.spec_len(),
        w.status() == WorkerStatus::Done <==> w.written == w.range.spec_len(),
{
}

/// Once a worker is over, it stays so: no piece and no report changes the
/// status of a worker that is not `Active`, and none lowers what is written.
pub proof fn lemma_terminal_is_final(w: ChunkWorker, len: u64, ok: bool)
    requires
        w.wf(),
    ensures
        w.status() != WorkerStatus::Active ==> {
            &&& w.after_piece(len).status() == w.status()
            &&& w.after_write(len, ok).status() == w.status()
            &&& w.after_close().status() == w.status()
        },
        w.after_piece(len).written == w.written,
        w.after_write(len, ok).written >= w.written,
        w.after_close().written == w.written,
{
}

} // verus!
