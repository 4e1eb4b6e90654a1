//! A download job: what is known of the resource, one worker for each planned
//! range, and the count of the bytes written so far.
//!
//! The job is a state machine. Its caller probes the resource and builds the
//! job from the answer, fetches each range of `chunk_ranges`, passes every
//! received piece to `piece`, writes it where the answer says, reports the
//! write with `wrote`, ends each fetch with `close` and asks `download` for
//! the result.

use vstd::prelude::*;
use crate::media::{extension_of, file_extension};
use crate::ranges::{
    lemma_partition_exact, lemma_partition_total_len, lemma_plan_partitions, lemma_single_range,
    plan_ranges, planned_ranges, total_len, ChunkRange,
};
use crate::savepath::{replace_extension, with_extension};
use crate::text::opt_string_chars;
use crate::worker::{ChunkWorker, Fault, PieceAction, WorkerStatus};

verus! {

/// Why a job could not be built.
#[derive(Clone, Copy, Debug, PartialEq, Eq, Structural)]
pub enum ProbeError {
    /// The probing request got no response.
    Unreachable,
    /// The response did not say how long the resource is.
    MissingLength,
}

/// Why a job failed.
#[derive(Clone, Copy, Debug, PartialEq, Eq, Structural)]
pub enum DownloadError {
    /// A fetch ended before its range was complete.
    Transfer,
    /// Every range arrived, but a write to the file failed.
    Write,
    /// The ranges of the job do not split the resource. `download` never
    /// returns this.
    Partition,
}

/// What the response to the probing request said.
#[derive(Clone, Debug)]
pub struct ProbeResponse {
    /// The value of the content-type header, if there was one.
    pub content_type: Option<String>,
    /// The length of the resource in bytes, if the response gave it.
    pub content_length: Option<u64>,
    /// Whether the response held an `Accept-Ranges` header.
    pub accept_ranges: bool,
}

/// How the probing request ended.
#[derive(Clone, Debug)]
pub enum ProbeOutcome {
    /// No response came.
    Unreachable,
    /// The server answered.
    Response(ProbeResponse),
}

/// The client identity that requests carry; the server turns away clients
/// that it does not take for a browser.
pub const USER_AGENT: &'static str =
    "Mozilla/5.0 (iPhone; CPU iPhone OS 13_2_3 like Mac OS X) AppleWebKit/605.1.15 (KHTML, like Gecko) Version/13.0.3 Mobile/15E148 Safari/604.1";

/// Number of workers of a job that was given none.
pub const DEFAULT_CHUNK_COUNT: u8 = 4;

/// Sum of the bytes written by `workers`.
pub open spec fn written_sum(workers: Seq<ChunkWorker>) -> nat
    decreases workers.len(),
{
    if workers.len() == 0 {
        0
    } else {
        written_sum(workers.drop_last()) + workers.last().written as nat
    }
}

/// Whether some worker of `workers` has the status `status`.
pub open spec fn some_status(workers: Seq<ChunkWorker>, status: WorkerStatus) -> bool {
    exists|i: int| 0 <= i < workers.len() && (#[trigger] workers[i]).status() == status
}

/// Whether every worker of `workers` is `Done`.
pub open spec fn all_done(workers: Seq<ChunkWorker>) -> bool {
    forall|i: int| 0 <= i < workers.len() ==> (#[trigger] workers[i]).status() == WorkerStatus::Done
}

/// Whether no worker of `workers` is `Active`.
pub open spec fn all_over(workers: Seq<ChunkWorker>) -> bool {
    !some_status(workers, WorkerStatus::Active)
}

/// The result of a job whose workers are all over: success when every
/// worker is done; else a transfer failure if any fetch fell short, and a
/// write failure if only writes failed.
pub open spec fn verdict(workers: Seq<ChunkWorker>) -> Result<(), DownloadError> {
    if some_status(workers, WorkerStatus::Failed(Fault::Transfer)) {
        Err(DownloadError::Transfer)
    } else if some_status(workers, WorkerStatus::Failed(Fault::Write)) {
        Err(DownloadError::Write)
    } else {
        Ok(())
    }
}

/// The workers `workers`, each one closed.
pub open spec fn closed(workers: Seq<ChunkWorker>) -> Seq<ChunkWorker> {
    Seq::new(workers.len(), |i: int| workers[i].after_close())
}

/// One thing that happens to a job.
pub enum JobEvent {
    /// The fetch of worker `worker` delivered a piece of `len` bytes.
    Piece { worker: usize, len: u64 },
    /// A write of `len` bytes for worker `worker` succeeded (`ok`) or failed.
    Wrote { worker: usize, len: u64, ok: bool },
    /// The fetch of worker `worker` is over.
    Close { worker: usize },
    /// The job is brought to its end: every worker is closed.
    Finish,
}

/// The workers of a job after `event`. An event for a worker that the job
/// does not have changes nothing.
pub open spec fn after_event(workers: Seq<ChunkWorker>, event: JobEvent) -> Seq<ChunkWorker> {
    match event {
        JobEvent::Piece { worker, len } => if worker < workers.len() {
            workers.update(worker as int, workers[worker as int].after_piece(len))
        } else {
            workers
        },
        JobEvent::Wrote { worker, len, ok } => if worker < workers.len() {
            workers.update(worker as int, workers[worker as int].after_write(len, ok))
        } else {
            workers
        },
        JobEvent::Close { worker } => if worker < workers.len() {
            workers.update(worker as int, workers[worker as int].after_close())
        } else {
            workers
        },
        JobEvent::Finish => closed(workers),
    }
}

/// The workers of a job after the events `events`, in their order.
pub open spec fn after_events(workers: Seq<ChunkWorker>, events: Seq<JobEvent>) -> Seq<ChunkWorker>
    decreases events.len(),
{
    if events.len() == 0 {
        workers
    } else {
        after_event(after_events(workers, events.drop_last()), events.last())
    }
}

/// Fresh workers, one for each range of `ranges`.
pub open spec fn fresh_workers(ranges: Seq<ChunkRange>) -> Seq<ChunkWorker> {
    Seq::new(ranges.len(), |i: int| ChunkWorker::fresh(ranges[i]))
}

/// Workers for `ranges`: each is consistent and holds its range.
pub open spec fn workers_fit(workers: Seq<ChunkWorker>, ranges: Seq<ChunkRange>) -> bool {
    &&& workers.len() == ranges.len()
    &&& forall|i: int|
        0 <= i < workers.len() ==> (#[trigger] workers[i]).wf() && workers[i].range == ranges[i]
}

/// Replacing one worker changes the sum by the difference in what the two
/// have written.
pub proof fn lemma_sum_update(workers: Seq<ChunkWorker>, i: int, w: ChunkWorker)
    requires
        0 <= i < workers.len(),
    ensures
        written_sum(workers.update(i, w)) == written_sum(workers) - workers[i].written + w.written,
    decreases workers.len(),
{
    let updated = workers.update(i, w);
    if i == workers.len() - 1 {
        assert(updated.drop_last() =~= workers.drop_last());
    } else {
        assert(updated.drop_last() =~= workers.drop_last().update(i, w));
        lemma_sum_update(workers.drop_last(), i, w);
    }
}

/// Workers that have written the same, one by one, have the same sum.
pub proof fn lemma_sum_same(a: Seq<ChunkWorker>, b: Seq<ChunkWorker>)
    requires
        a.len() == b.len(),
        forall|i: int| 0 <= i < a.len() ==> (#[trigger] a[i]).written == b[i].written,
    ensures
        written_sum(a) == written_sum(b),
    decreases a.len(),
{
    if a.len() > 0 {
        assert(a.last().written == b[b.len() - 1].written);
        assert forall|i: int| 0 <= i < a.drop_last().len() implies (#[trigger] a.drop_last()[i]).written
            == b.drop_last()[i].written by {
            assert(a.drop_last()[i] == a[i]);
        }
        lemma_sum_same(a.drop_last(), b.drop_last());
    }
}

/// Workers never write more than their ranges hold, and they have written
/// all of it exactly when each of them is done.
pub proof fn lemma_sum_bound(workers: Seq<ChunkWorker>, ranges: Seq<ChunkRange>)
    requires
        workers_fit(workers, ranges),
    ensures
        written_sum(workers) <= total_len(ranges),
        written_sum(workers) == total_len(ranges) <==> all_done(workers),
    decreases workers.len(),
{
    if workers.len() > 0 {
        let ws = workers.drop_last();
        let rs = ranges.drop_last();
        assert forall|i: int| 0 <= i < ws.len() implies (#[trigger] ws[i]).wf() && ws[i].range
            == rs[i] by {
            assert(ws[i] == workers[i]);
        }
        lemma_sum_bound(ws, rs);
        let last = workers.last();
        assert(last == workers[workers.len() - 1]);
        assert(last.wf() && last.range == ranges.last());
        if all_done(workers) {
            assert forall|i: int| 0 <= i < ws.len() implies (#[trigger] ws[i]).status()
                == WorkerStatus::Done by {
                assert(ws[i] == workers[i]);
            }
        }
        if written_sum(workers) == total_len(ranges) {
            assert forall|i: int| 0 <= i < workers.len() implies (#[trigger] workers[i]).status()
                == WorkerStatus::Done by {
                if i < ws.len() {
                    assert(ws[i] == workers[i]);
                }
            }
        }
    }
}

/// No event lowers what the workers have written, none raises it beyond
/// what their ranges hold, and the workers stay consistent.
pub proof fn lemma_event_keeps_progress(
    workers: Seq<ChunkWorker>,
    ranges: Seq<ChunkRange>,
    event: JobEvent,
)
    requires
        workers_fit(workers, ranges),
    ensures
        workers_fit(after_event(workers, event), ranges),
        written_sum(workers) <= written_sum(after_event(workers, event)) <= total_len(ranges),
{
    let after = after_event(workers, event);
    match event {
        JobEvent::Piece { worker, len } => {
            if worker < workers.len() {
                lemma_sum_update(workers, worker as int, after[worker as int]);
            }
        },
        JobEvent::Wrote { worker, len, ok } => {
            if worker < workers.len() {
                lemma_sum_update(workers, worker as int, after[worker as int]);
            }
        },
        JobEvent::Close { worker } => {
            if worker < workers.len() {
                lemma_sum_update(workers, worker as int, after[worker as int]);
            }
        },
        JobEvent::Finish => {
            lemma_sum_same(workers, after);
        },
    }
    assert forall|i: int| 0 <= i < after.len() implies (#[trigger] after[i]).wf() && after[i].range
        == ranges[i] by {
        assert(workers[i].wf());
    }
    lemma_sum_bound(after, ranges);
}

/// Over the whole life of a job the count of written bytes never falls and
/// never passes the length of the resource: whatever events come, in
/// whatever order, each leaves the count at least where it was and at most
/// at what the ranges hold.
pub proof fn lemma_progress_never_falls(
    workers: Seq<ChunkWorker>,
    ranges: Seq<ChunkRange>,
    events: Seq<JobEvent>,
)
    requires
        workers_fit(workers, ranges),
    ensures
        workers_fit(after_events(workers, events), ranges),
        written_sum(workers) <= written_sum(after_events(workers, events)) <= total_len(ranges),
    decreases events.len(),
{
    if events.len() == 0 {
        lemma_sum_bound(workers, ranges);
    } else {
        lemma_progress_never_falls(workers, ranges, events.drop_last());
        lemma_event_keeps_progress(
            after_events(workers, events.drop_last()),
            ranges,
            events.last(),
        );
    }
}

/// A worker that is over stays as it ended under every event, so the
/// result of a finished job does not change any more.
pub proof fn lemma_finished_stays(workers: Seq<ChunkWorker>, ranges: Seq<ChunkRange>, event: JobEvent)
    requires
        workers_fit(workers, ranges),
        all_over(workers),
    ensures
        all_over(after_event(workers, event)),
        verdict(after_event(workers, event)) == verdict(workers),
        all_done(after_event(workers, event)) == all_done(workers),
{
    let after = after_event(workers, event);
    assert(after.len() == workers.len());
    assert forall|i: int| 0 <= i < workers.len() implies (#[trigger] after[i]).status()
        == workers[i].status() by {
        let w = workers[i];
        assert(w.wf());
        assert(w.status() != WorkerStatus::Active);
        match event {
            JobEvent::Piece { worker, len } => {
                crate::worker::lemma_terminal_is_final(w, len, true);
            },
            JobEvent::Wrote { worker, len, ok } => {
                crate::worker::lemma_terminal_is_final(w, len, ok);
            },
            JobEvent::Close { worker } => {
                crate::worker::lemma_terminal_is_final(w, 0, true);
            },
            JobEvent::Finish => {
                crate::worker::lemma_terminal_is_final(w, 0, true);
            },
        }
    }
    lemma_same_statuses(workers, after);
}

/// Workers with the same statuses, one by one, give the same result.
pub proof fn lemma_same_statuses(a: Seq<ChunkWorker>, b: Seq<ChunkWorker>)
    requires
        a.len() == b.len(),
        forall|i: int| 0 <= i < a.len() ==> (#[trigger] b[i]).status() == a[i].status(),
    ensures
        forall|status: WorkerStatus| some_status(a, status) == some_status(b, status),
        all_over(a) == all_over(b),
        verdict(a) == verdict(b),
        all_done(a) == all_done(b),
{
    assert forall|status: WorkerStatus| some_status(a, status) == some_status(b, status) by {
        if some_status(a, status) {
            let i = choose|i: int| 0 <= i < a.len() && (#[trigger] a[i]).status() == status;
            assert(b[i].status() == status);
        }
        if some_status(b, status) {
            let i = choose|i: int| 0 <= i < b.len() && (#[trigger] b[i]).status() == status;
            assert(a[i].status() == status);
        }
    }
    if all_done(a) {
        assert forall|i: int| 0 <= i < b.len() implies (#[trigger] b[i]).status()
            == WorkerStatus::Done by {
            assert(a[i].status() == WorkerStatus::Done);
        }
    }
    if all_done(b) {
        assert forall|i: int| 0 <= i < a.len() implies (#[trigger] a[i]).status()
            == WorkerStatus::Done by {
            assert(b[i].status() == WorkerStatus::Done);
        }
    }
}

/// The state of one download job.
#[derive(Clone, Debug)]
pub struct Downloader {
    url: String,
    filesize: u64,
    savepath: String,
    support_range: bool,
    chunk_count: u8,
    workers: Vec<ChunkWorker>,
    downloaded: u64,
}

impl Downloader {
    /// The address of the resource.
    pub closed spec fn source_url(&self) -> Seq<char> {
        self.url@
    }

    /// The length of the resource in bytes.
    pub closed spec fn total(&self) -> nat {
        self.filesize as nat
    }

    /// The path of the destination file.
    pub closed spec fn save_path(&self) -> Seq<char> {
        self.savepath@
    }

    /// Whether the server serves byte ranges.
    pub closed spec fn supports_range(&self) -> bool {
        self.support_range
    }

    /// The number of workers that was asked for.
    pub closed spec fn count(&self) -> nat {
        self.chunk_count as nat
    }

    /// The workers of the job, one for each range of the plan.
    pub closed spec fn workers(&self) -> Seq<ChunkWorker> {
        self.workers@
    }

    /// The progress count: bytes written so far.
    pub closed spec fn progress(&self) -> nat {
        self.downloaded as nat
    }

    /// The number of workers that the job runs: the number asked for when
    /// the server serves ranges, else one.
    pub open spec fn effective_count(&self) -> nat {
        if self.supports_range() {
            self.count()
        } else {
            1
        }
    }

    /// The ranges of the job.
    pub open spec fn plan(&self) -> Seq<ChunkRange> {
        planned_ranges(self.total(), self.effective_count())
    }

    /// The job is consistent: it has a worker for each range of its plan,
    /// the resource fits the machine's offsets, and the progress count is
    /// what the workers have written.
    pub open spec fn wf(&self) -> bool {
        &&& self.count() >= 1
        &&& self.total() <= u64::MAX
        &&& workers_fit(self.workers(), self.plan())
        &&& self.progress() == written_sum(self.workers())
    }

    /// Everything of the job but its workers and its progress count is the
    /// same in `self` and `other`.
    pub open spec fn same_resource(self, other: Downloader) -> bool {
        &&& self.source_url() == other.source_url()
        &&& self.total() == other.total()
        &&& self.save_path() == other.save_path()
        &&& self.supports_range() == other.supports_range()
        &&& self.count() == other.count()
    }

    /// Whether every worker is over.
    pub open spec fn finished(&self) -> bool {
        all_over(self.workers())
    }

    /// The progress count never passes the length of the resource, and
    /// reaches it exactly when every worker is done.
    pub proof fn lemma_progress(&self)
        requires
            self.wf(),
        ensures
            self.progress() <= self.total(),
            self.progress() == self.total() <==> all_done(self.workers()),
            self.total() == 0 ==> self.workers().len() == 0,
    {
        lemma_plan_partitions(self.total(), self.effective_count());
        lemma_partition_total_len(self.plan(), self.total());
        lemma_sum_bound(self.workers(), self.plan());
    }

    /// Without range support the job fetches the resource in one piece, from
    /// offset 0 to its end, whatever number of workers was asked for; an
    /// empty resource needs no fetch, with or without range support.
    pub proof fn lemma_plain_path(&self)
        requires
            self.wf(),
        ensures
            self.total() == 0 ==> self.plan().len() == 0,
            !self.supports_range() && self.total() > 0 ==> self.plan() == seq![
                ChunkRange { start: 0, end: (self.total() - 1) as u64 },
            ],
    {
        if self.total() > 0 {
            lemma_single_range(self.total());
        }
    }

    /// Builds the job for the resource at `url` from the answer to the
    /// probing request. The destination is `savepath` with the extension
    /// that belongs to the content type; the job runs `chunk_count` workers
    /// (4 when none is given) if the server serves ranges, else one.
    pub fn new(url: String, savepath: String, chunk_count: Option<u8>, probe: ProbeOutcome) -> (job:
        Result<Downloader, ProbeError>)
        requires
            chunk_count != Some(0u8),
        ensures
            match probe {
                ProbeOutcome::Unreachable => job matches Err(e) && e == ProbeError::Unreachable,
                ProbeOutcome::Response(p) => match p.content_length {
                    None => job matches Err(e) && e == ProbeError::MissingLength,
                    Some(size) => {
                        &&& job matches Ok(d)
                        &&& d.wf()
                        &&& d.source_url() == url@
                        &&& d.total() == size
                        &&& d.supports_range() == p.accept_ranges
                        &&& d.count() == (match chunk_count {
                            Some(c) => c,
                            None => DEFAULT_CHUNK_COUNT,
                        })
                        &&& d.save_path() == with_extension(
                            savepath@,
                            extension_of(opt_string_chars(p.content_type)),
                        )
                        &&& d.progress() == 0
                        &&& d.workers() == fresh_workers(d.plan())
                    },
                },
            },
    {
        match probe {
            ProbeOutcome::Unreachable => Err(ProbeError::Unreachable),
            ProbeOutcome::Response(p) => {
                let filesize = match p.content_length {
                    Some(size) => size,
                    None => {
                        return Err(ProbeError::MissingLength);
                    },
                };
                let extension = match &p.content_type {
                    Some(ct) => file_extension(Some(ct.as_str())),
                    None => file_extension(None),
                };
                let destination = replace_extension(savepath.as_str(), extension);
                let count = match chunk_count {
                    Some(c) => c,
                    None => DEFAULT_CHUNK_COUNT,
                };
                let support_range = p.accept_ranges;
                let effective: u64 = if support_range {
                    count as u64
                } else {
                    1
                };
                let ranges = plan_ranges(filesize, effective);
                proof {
                    lemma_partition_exact(ranges@, filesize as nat);
                }
                let mut workers: Vec<ChunkWorker> = Vec::new();
                let mut i: usize = 0;
                while i < ranges.len()
                    invariant
                        i <= ranges@.len(),
                        workers@.len() == i,
                        filesize > 0 || ranges@.len() == 0,
                        forall|k: int|
                            0 <= k < ranges@.len() ==> (#[trigger] ranges@[k]).start
                                <= ranges@[k].end < filesize,
                        forall|k: int|
                            0 <= k < i ==> #[trigger] workers@[k] == ChunkWorker::fresh(ranges@[k]),
                    decreases ranges@.len() - i,
                {
                    workers.push(ChunkWorker::new(ranges[i]));
                    i = i + 1;
                }
                let job = Downloader {
                    url,
                    filesize,
                    savepath: destination,
                    support_range,
                    chunk_count: count,
                    workers,
                    downloaded: 0,
                };
                proof {
                    assert(job.plan() == ranges@);
                    assert(job.workers() =~= fresh_workers(job.plan()));
                    lemma_zero_sum(job.workers());
                }
                Ok(job)
            },
        }
    }

    /// The length of the resource in bytes.
    pub fn total_size(&self) -> (size: u64)
        ensures
            size == self.total(),
    {
        self.filesize
    }

    /// The number of workers that was asked for.
    pub fn chunk_count(&self) -> (count: u64)
        ensures
            count == self.count(),
    {
        self.chunk_count as u64
    }

    /// The progress count: bytes written to the file so far.
    pub fn downloaded_size(&self) -> (size: u64)
        ensures
            size == self.progress(),
    {
        self.downloaded
    }

    /// The path of the destination file, with the extension that belongs to
    /// the content type.
    pub fn get_save_path(&self) -> (path: String)
        ensures
            path@ == self.save_path(),
    {
        self.savepath.clone()
    }

    /// The address of the resource.
    pub fn get_url(&self) -> (url: String)
        ensures
            url@ == self.source_url(),
    {
        self.url.clone()
    }

    /// Whether the server serves byte ranges.
    pub fn is_support_range(&self) -> (flag: bool)
        ensures
            flag == self.supports_range(),
    {
        self.support_range
    }

    /// Whether the progress count has reached the length of the resource.
    pub fn is_complete(&self) -> (flag: bool)
        ensures
            flag == (self.progress() >= self.total()),
    {
        self.downloaded >= self.filesize
    }

    /// The ranges to fetch; range `i` belongs to worker `i`.
    pub fn chunk_ranges(&self) -> (ranges: Vec<ChunkRange>)
        requires
            self.wf(),
        ensures
            ranges@ == self.plan(),
    {
        let mut ranges: Vec<ChunkRange> = Vec::new();
        let mut i: usize = 0;
        while i < self.workers.len()
            invariant
                self.wf(),
                i <= self.workers@.len(),
                ranges@.len() == i,
                forall|k: int| 0 <= k < i ==> #[trigger] ranges@[k] == self.plan()[k],
            decreases self.workers@.len() - i,
        {
            ranges.push(self.workers[i].range);
            i = i + 1;
        }
        assert(ranges@ =~= self.plan());
        ranges
    }

    /// The state of worker `worker`, if the job has one with that number.
    pub fn worker(&self, worker: usize) -> (state: Option<ChunkWorker>)
        ensures
            state == (if worker < self.workers().len() {
                Some(self.workers()[worker as int])
            } else {
                None
            }),
    {
        if worker < self.workers.len() {
            Some(self.workers[worker])
        } else {
            None
        }
    }

    /// Takes a piece of `len` bytes that the fetch of worker `worker`
    /// delivered and says where it goes. A write that this hands out lies
    /// inside the worker's own range. A number that names no worker gets
    /// `Stop`.
    pub fn piece(&mut self, worker: usize, len: u64) -> (action: PieceAction)
        requires
            old(self).wf(),
        ensures
            final(self).wf(),
            final(self).same_resource(*old(self)),
            final(self).progress() == old(self).progress(),
            final(self).workers() == after_event(
                old(self).workers(),
                JobEvent::Piece { worker, len },
            ),
            action == (if worker < old(self).workers().len() {
                old(self).workers()[worker as int].piece_action(len)
            } else {
                PieceAction::Stop
            }),
            action matches PieceAction::Write { offset, len: n } ==> {
                &&& n == len
                &&& worker < old(self).plan().len()
                &&& old(self).plan()[worker as int].start <= offset
                &&& offset + n - 1 <= old(self).plan()[worker as int].end
            },
    {
        if worker >= self.workers.len() {
            return PieceAction::Stop;
        }
        let mut w = self.workers[worker];
        let action = w.piece(len);
        proof {
            lemma_sum_update(self.workers@, worker as int, w);
        }
        self.workers[worker] = w;
        action
    }

    /// Records the result of writing `len` bytes of a piece of worker
    /// `worker`. A write that succeeded adds its bytes to the progress
    /// count; nothing else does.
    pub fn wrote(&mut self, worker: usize, len: u64, ok: bool)
        requires
            old(self).wf(),
        ensures
            final(self).wf(),
            final(self).same_resource(*old(self)),
            final(self).progress() >= old(self).progress(),
            final(self).workers() == after_event(
                old(self).workers(),
                JobEvent::Wrote { worker, len, ok },
            ),
            final(self).progress() == old(self).progress() + (if worker < old(
                self,
            ).workers().len() {
                old(self).workers()[worker as int].write_gain(len, ok)
            } else {
                0
            }),
    {
        if worker >= self.workers.len() {
            return ;
        }
        let mut w = self.workers[worker];
        let gain = w.wrote(len, ok);
        proof {
            let after = self.workers@.update(worker as int, w);
            lemma_sum_update(self.workers@, worker as int, w);
            lemma_plan_partitions(self.total(), self.effective_count());
            lemma_partition_total_len(self.plan(), self.total());
            lemma_sum_bound(after, self.plan());
        }
        self.workers[worker] = w;
        self.downloaded = self.downloaded + gain;
    }

    /// Ends worker `worker`: its fetch is over, by its end or by a failure.
    pub fn close(&mut self, worker: usize)
        requires
            old(self).wf(),
        ensures
            final(self).wf(),
            final(self).same_resource(*old(self)),
            final(self).progress() == old(self).progress(),
            final(self).workers() == after_event(old(self).workers(), JobEvent::Close { worker }),
    {
        if worker >= self.workers.len() {
            return ;
        }
        let mut w = self.workers[worker];
        w.close();
        proof {
            lemma_sum_update(self.workers@, worker as int, w);
        }
        self.workers[worker] = w;
    }

    /// Whether every worker is over.
    pub fn is_finished(&self) -> (flag: bool)
        requires
            self.wf(),
        ensures
            flag == self.finished(),
    {
        let mut i: usize = 0;
        while i < self.workers.len()
            invariant
                self.wf(),
                i <= self.workers@.len(),
                forall|k: int|
                    0 <= k < i ==> (#[trigger] self.workers@[k]).status() != WorkerStatus::Active,
            decreases self.workers@.len() - i,
        {
            match self.workers[i].current_status() {
                WorkerStatus::Active => {
                    return false;
                },
                _ => {},
            }
            i = i + 1;
        }
        true
    }

    /// Brings the job to its end and gives its result. Every worker is
    /// closed: one that has not received its whole range has failed. The
    /// result is success exactly when every worker is done, which is
    /// exactly when the progress count has reached the length of the
    /// resource; for an empty resource that is at once.
    pub fn download(&mut self) -> (result: Result<(), DownloadError>)
        requires
            old(self).wf(),
        ensures
            final(self).wf(),
            final(self).same_resource(*old(self)),
            final(self).workers() == after_event(old(self).workers(), JobEvent::Finish),
            final(self).progress() == old(self).progress(),
            final(self).finished(),
            result == verdict(final(self).workers()),
            result is Ok <==> all_done(final(self).workers()),
            result is Ok <==> final(self).progress() == final(self).total(),
            result != Err::<(), DownloadError>(DownloadError::Partition),
    {
        let ghost before = *self;
        let n = self.workers.len();
        let mut transfer = false;
        let mut write = false;
        let mut i: usize = 0;
        while i < n
            invariant
                before.wf(),
                self.same_resource(before),
                self.downloaded == before.downloaded,
                n == before.workers@.len(),
                self.workers@.len() == n,
                i <= n,
                forall|k: int|
                    0 <= k < i ==> #[trigger] self.workers@[k] == before.workers@[k].after_close(),
                forall|k: int| i <= k < n ==> #[trigger] self.workers@[k] == before.workers@[k],
                transfer <==> exists|k: int|
                    0 <= k < i && (#[trigger] self.workers@[k]).status() == WorkerStatus::Failed(
                        Fault::Transfer,
                    ),
                write <==> exists|k: int|
                    0 <= k < i && (#[trigger] self.workers@[k]).status() == WorkerStatus::Failed(
                        Fault::Write,
                    ),
            decreases n - i,
        {
            let ghost prior = self.workers@;
            let ghost had_transfer = transfer;
            let ghost had_write = write;
            let mut w = self.workers[i];
            assert(w.wf());
            w.close();
            match w.current_status() {
                WorkerStatus::Failed(Fault::Transfer) => {
                    transfer = true;
                },
                WorkerStatus::Failed(Fault::Write) => {
                    write = true;
                },
                _ => {},
            }
            self.workers[i] = w;
            proof {
                let now = self.workers@;
                assert forall|k: int| 0 <= k < i implies #[trigger] now[k] == prior[k] by {}
                assert forall|k: int| 0 <= k < i implies #[trigger] prior[k] == now[k] by {}
                assert(now[i as int] == w);
                let t = WorkerStatus::Failed(Fault::Transfer);
                let u = WorkerStatus::Failed(Fault::Write);
                if had_transfer {
                    let k = choose|k: int| 0 <= k < i && (#[trigger] prior[k]).status() == t;
                    assert(now[k].status() == t);
                }
                if had_write {
                    let k = choose|k: int| 0 <= k < i && (#[trigger] prior[k]).status() == u;
                    assert(now[k].status() == u);
                }
                if w.status() == t {
                    assert(now[i as int].status() == t);
                }
                if w.status() == u {
                    assert(now[i as int].status() == u);
                }
            }
            i = i + 1;
        }
        proof {
            assert(self.workers@ =~= closed(before.workers@));
            lemma_sum_same(before.workers@, self.workers@);
            assert forall|k: int| 0 <= k < n implies (#[trigger] self.workers@[k]).wf()
                && self.workers@[k].range == self.plan()[k] && self.workers@[k].status()
                != WorkerStatus::Active by {
                assert(before.workers@[k].wf());
            }
            self.lemma_progress();
        }
        if transfer {
            Err(DownloadError::Transfer)
        } else if write {
            Err(DownloadError::Write)
        } else {
            Ok(())
        }
    }
}

/// Workers that have written nothing sum to nothing.
pub proof fn lemma_zero_sum(workers: Seq<ChunkWorker>)
    requires
        forall|i: int| 0 <= i < workers.len() ==> (#[trigger] workers[i]).written == 0,
    ensures
        written_sum(workers) == 0,
    decreases workers.len(),
{
    if workers.len() > 0 {
        assert(workers.last() == workers[workers.len() - 1]);
        assert forall|i: int| 0 <= i < workers.drop_last().len() implies (
        #[trigger] workers.drop_last()[i]).written == 0 by {
            assert(workers.drop_last()[i] == workers[i]);
        }
        lemma_zero_sum(workers.drop_last());
    }
}

} // verus!
