//! Job bookkeeping: the queue of compression jobs and their status changes, the
//! record of outputs written recently (which folder watching must not pick up),
//! and the bounded history of finished jobs.
//!
//! Progress is held in tenths of a percent, speed in hundredths of real time and
//! the remaining time in milliseconds.
use vstd::prelude::*;
use vstd::string::*;
use crate::output::random_id;
use crate::probe::{dup_opt, MediaInfo, MediaKind};
use crate::settings::Settings;

verus! {

/// Where a job stands.
#[derive(Debug, Clone, Copy, PartialEq, Eq, Structural)]
pub enum JobStatus {
    Queued,
    Running,
    Done,
    Failed,
    Cancelled,
}

/// A compression job.
#[derive(Debug)]
pub struct Job {
    pub id: u128,
    pub input: MediaInfo,
    pub output_path: Option<String>,
    pub status: JobStatus,
    /// 0..=1000, tenths of a percent.
    pub progress_permille: u32,
    pub output_size: Option<u64>,
    pub output_width: Option<u32>,
    pub output_height: Option<u32>,
    pub error: Option<String>,
    pub elapsed_ms: Option<u64>,
    pub finished_at: Option<i64>,
    /// The output ended up larger than the input.
    pub larger: bool,
    /// Encode speed relative to real time, in hundredths, while running.
    pub speed_centi: Option<u64>,
    /// Estimated milliseconds remaining, while running.
    pub eta_ms: Option<u64>,
    /// Per-job settings snapshot (so per-file overrides are honoured).
    pub settings: Option<Settings>,
}

fn dup_settings(o: &Option<Settings>) -> (r: Option<Settings>)
    ensures
        r == *o,
{
    match o {
        Some(s) => Some(s.dup()),
        None => None,
    }
}

impl Job {
    /// A new queued job for `input`.
    pub open spec fn queued(id: u128, input: MediaInfo, settings: Settings) -> Job {
        Job {
            id,
            input,
            output_path: None,
            status: JobStatus::Queued,
            progress_permille: 0,
            output_size: None,
            output_width: None,
            output_height: None,
            error: None,
            elapsed_ms: None,
            finished_at: None,
            larger: false,
            speed_centi: None,
            eta_ms: None,
            settings: Some(settings),
        }
    }

    /// An identical copy.
    pub fn dup(&self) -> (r: Job)
        ensures
            r == *self,
    {
        Job {
            id: self.id,
            input: self.input.dup(),
            output_path: dup_opt(&self.output_path),
            status: self.status,
            progress_permille: self.progress_permille,
            output_size: self.output_size,
            output_width: self.output_width,
            output_height: self.output_height,
            error: dup_opt(&self.error),
            elapsed_ms: self.elapsed_ms,
            finished_at: self.finished_at,
            larger: self.larger,
            speed_centi: self.speed_centi,
            eta_ms: self.eta_ms,
            settings: dup_settings(&self.settings),
        }
    }
}

/// A job with its cancellation flag.
#[derive(Debug)]
pub struct JobEntry {
    pub job: Job,
    pub cancelled: bool,
}

/// Whether a job is still pending or in progress.
pub open spec fn is_active(s: JobStatus) -> bool {
    s == JobStatus::Queued || s == JobStatus::Running
}

/// The entries whose jobs are still queued or running, in order.
pub open spec fn active_entries(s: Seq<JobEntry>) -> Seq<JobEntry>
    decreases s.len(),
{
    if s.len() == 0 {
        s
    } else {
        let rest = active_entries(s.skip(1));
        if is_active(s[0].job.status) { seq![s[0]] + rest } else { rest }
    }
}

/// The entries whose job id is not `id`, in order.
pub open spec fn without_id(s: Seq<JobEntry>, id: u128) -> Seq<JobEntry>
    decreases s.len(),
{
    if s.len() == 0 {
        s
    } else {
        let rest = without_id(s.skip(1), id);
        if s[0].job.id != id { seq![s[0]] + rest } else { rest }
    }
}

/// The index of the first entry with job id `id`, or `s.len()`.
pub open spec fn index_of_id(s: Seq<JobEntry>, id: u128) -> int
    decreases s.len(),
{
    if s.len() == 0 {
        0
    } else if s[0].job.id == id {
        0
    } else {
        1 + index_of_id(s.skip(1), id)
    }
}

/// The entries with the first job of id `id` marked cancelled.
pub open spec fn cancel_first(s: Seq<JobEntry>, id: u128) -> Seq<JobEntry> {
    let k = index_of_id(s, id);
    if k < s.len() {
        s.update(k, JobEntry { cancelled: true, ..s[k] })
    } else {
        s
    }
}

/// The entries with every queued or running job marked cancelled.
pub open spec fn cancel_active(s: Seq<JobEntry>) -> Seq<JobEntry> {
    Seq::new(
        s.len(),
        |i: int|
            if is_active(s[i].job.status) {
                JobEntry { cancelled: true, ..s[i] }
            } else {
                s[i]
            },
    )
}

proof fn lemma_index_of_id_bounds(s: Seq<JobEntry>, id: u128)
    ensures
        0 <= index_of_id(s, id) <= s.len(),
        index_of_id(s, id) < s.len() ==> s[index_of_id(s, id)].job.id == id,
        forall|j: int| 0 <= j < index_of_id(s, id) ==> s[j].job.id != id,
    decreases s.len(),
{
    if s.len() > 0 && s[0].job.id != id {
        lemma_index_of_id_bounds(s.skip(1), id);
        assert forall|j: int| 0 <= j < index_of_id(s, id) implies s[j].job.id != id by {
            if j > 0 {
                assert(s[j] == s.skip(1)[j - 1]);
            }
        }
    }
}

/// The queue of jobs.
pub struct JobTable {
    pub entries: Vec<JobEntry>,
}

impl JobTable {
    /// An empty queue.
    pub fn new() -> (t: JobTable)
        ensures
            t.entries@ == Seq::<JobEntry>::empty(),
    {
        JobTable { entries: Vec::new() }
    }

    /// Copies of all jobs, in queue order.
    pub fn list(&self) -> (r: Vec<Job>)
        ensures
            r@.len() == self.entries@.len(),
            forall|i: int| 0 <= i < r@.len() ==> r@[i] == #[trigger] self.entries@[i].job,
    {
        let mut r: Vec<Job> = Vec::new();
        let mut i: usize = 0;
        while i < self.entries.len()
            invariant
                i <= self.entries@.len(),
                r@.len() == i,
                forall|j: int| 0 <= j < i ==> r@[j] == #[trigger] self.entries@[j].job,
            decreases self.entries@.len() - i,
        {
            r.push(self.entries[i].job.dup());
            i = i + 1;
        }
        r
    }

    /// Adds a queued job for each input (with its own settings), each under a fresh
    /// random id; returns copies of the new jobs.
    pub fn enqueue(&mut self, inputs: Vec<(MediaInfo, Settings)>) -> (created: Vec<Job>)
        ensures
            created@.len() == inputs@.len(),
            final(self).entries@.len() == old(self).entries@.len() + inputs@.len(),
            forall|i: int|
                0 <= i < old(self).entries@.len() ==> final(self).entries@[i] == old(
                    self,
                ).entries@[i],
            forall|i: int|
                0 <= i < inputs@.len() ==> {
                    &&& #[trigger] created@[i] == Job::queued(
                        created@[i].id,
                        inputs@[i].0,
                        inputs@[i].1,
                    )
                    &&& final(self).entries@[old(self).entries@.len() + i] == (JobEntry {
                        job: created@[i],
                        cancelled: false,
                    })
                },
    {
        let ghost start = self.entries@;
        let ghost all = inputs@;
        let mut inputs = inputs;
        let mut created: Vec<Job> = Vec::new();
        let total = inputs.len();
        let mut i: usize = 0;
        while inputs.len() > 0
            invariant
                all.len() == total,
                i + inputs@.len() == total,
                inputs@ == all.skip(i as int),
                created@.len() == i,
                self.entries@.len() == start.len() + i,
                forall|j: int| 0 <= j < start.len() ==> self.entries@[j] == start[j],
                forall|j: int|
                    0 <= j < i ==> {
                        &&& #[trigger] created@[j] == Job::queued(created@[j].id, all[j].0, all[j].1)
                        &&& self.entries@[start.len() + j] == (JobEntry {
                            job: created@[j],
                            cancelled: false,
                        })
                    },
            decreases inputs@.len(),
        {
            let (info, settings) = inputs.remove(0);
            let job = Job {
                id: random_id(),
                input: info,
                output_path: None,
                status: JobStatus::Queued,
                progress_permille: 0,
                output_size: None,
                output_width: None,
                output_height: None,
                error: None,
                elapsed_ms: None,
                finished_at: None,
                larger: false,
                speed_centi: None,
                eta_ms: None,
                settings: Some(settings),
            };
            created.push(job.dup());
            self.entries.push(JobEntry { job, cancelled: false });
            i = i + 1;
            assert(inputs@ =~= all.skip(i as int));
        }
        created
    }

    /// Drops every job that is no longer queued or running.
    pub fn clear_finished(&mut self)
        ensures
            final(self).entries@ == active_entries(old(self).entries@),
    {
        let ghost all = self.entries@;
        let mut rest: Vec<JobEntry> = Vec::new();
        std::mem::swap(&mut rest, &mut self.entries);
        assert(rest@ == all);
        let mut kept: Vec<JobEntry> = Vec::new();
        let total = rest.len();
        let mut i: usize = 0;
        assert(all.skip(0) =~= all);
        assert(kept@ + active_entries(all) =~= active_entries(all));
        while rest.len() > 0
            invariant
                all.len() == total,
                i + rest@.len() == total,
                rest@ == all.skip(i as int),
                kept@ + active_entries(rest@) == active_entries(all),
            decreases rest@.len(),
        {
            let ghost before = rest@;
            let e = rest.remove(0);
            assert(before.skip(1) =~= rest@);
            let ghost k0 = kept@;
            if e.job.status == JobStatus::Queued || e.job.status == JobStatus::Running {
                kept.push(e);
                assert(kept@ + active_entries(rest@) =~= k0 + active_entries(before));
            }
            i = i + 1;
            assert(rest@ =~= all.skip(i as int));
        }
        assert(active_entries(rest@) =~= Seq::<JobEntry>::empty());
        assert(kept@ =~= active_entries(all));
        self.entries = kept;
    }

    /// Marks the first job with this id as cancelled. Returns whether there was one,
    /// so that a running encode can be told to stop.
    pub fn cancel(&mut self, id: u128) -> (found: bool)
        ensures
            final(self).entries@ == cancel_first(old(self).entries@, id),
            found == (index_of_id(old(self).entries@, id) < old(self).entries@.len()),
    {
        proof {
            lemma_index_of_id_bounds(self.entries@, id);
        }
        let mut i: usize = 0;
        while i < self.entries.len()
            invariant
                i <= self.entries@.len(),
                self.entries@ == old(self).entries@,
                forall|j: int| 0 <= j < i ==> self.entries@[j].job.id != id,
            decreases self.entries@.len() - i,
        {
            if self.entries[i].job.id == id {
                proof {
                    lemma_index_is(self.entries@, id, i as int);
                }
                let mut e = self.entries.remove(i);
                e.cancelled = true;
                self.entries.insert(i, e);
                assert(self.entries@ =~= cancel_first(old(self).entries@, id));
                return true;
            }
            i = i + 1;
        }
        proof {
            lemma_index_is(self.entries@, id, i as int);
        }
        false
    }

    /// Marks every queued or running job as cancelled.
    pub fn cancel_all(&mut self)
        ensures
            final(self).entries@ == cancel_active(old(self).entries@),
    {
        let mut i: usize = 0;
        while i < self.entries.len()
            invariant
                i <= self.entries@.len(),
                self.entries@.len() == old(self).entries@.len(),
                forall|j: int|
                    0 <= j < i ==> self.entries@[j] == #[trigger] cancel_active(old(self).entries@)[j],
                forall|j: int| i <= j < self.entries@.len() ==> self.entries@[j] == old(self).entries@[j],
            decreases self.entries@.len() - i,
        {
            let st = self.entries[i].job.status;
            if st == JobStatus::Queued || st == JobStatus::Running {
                let mut e = self.entries.remove(i);
                e.cancelled = true;
                self.entries.insert(i, e);
            }
            i = i + 1;
        }
        assert(self.entries@ =~= cancel_active(old(self).entries@));
    }

    /// Cancels the job with this id (as `cancel`) and drops every job with that id.
    pub fn remove(&mut self, id: u128) -> (was_there: bool)
        ensures
            final(self).entries@ == without_id(cancel_first(old(self).entries@, id), id),
            was_there == (index_of_id(old(self).entries@, id) < old(self).entries@.len()),
    {
        let found = self.cancel(id);
        let ghost all = self.entries@;
        let mut rest: Vec<JobEntry> = Vec::new();
        std::mem::swap(&mut rest, &mut self.entries);
        let mut kept: Vec<JobEntry> = Vec::new();
        let total = rest.len();
        let mut i: usize = 0;
        assert(all.skip(0) =~= all);
        assert(kept@ + without_id(all, id) =~= without_id(all, id));
        while rest.len() > 0
            invariant
                all.len() == total,
                i + rest@.len() == total,
                rest@ == all.skip(i as int),
                kept@ + without_id(rest@, id) == without_id(all, id),
            decreases rest@.len(),
        {
            let ghost before = rest@;
            let e = rest.remove(0);
            assert(before.skip(1) =~= rest@);
            let ghost k0 = kept@;
            if e.job.id != id {
                kept.push(e);
                assert(kept@ + without_id(rest@, id) =~= k0 + without_id(before, id));
            }
            i = i + 1;
            assert(rest@ =~= all.skip(i as int));
        }
        assert(without_id(rest@, id) =~= Seq::<JobEntry>::empty());
        assert(kept@ =~= without_id(all, id));
        self.entries = kept;
        found
    }
}

/// The entries with the first job of id `id` replaced by `f` of it.
pub open spec fn at_first(s: Seq<JobEntry>, id: u128, e: JobEntry) -> Seq<JobEntry> {
    let k = index_of_id(s, id);
    if k < s.len() { s.update(k, e) } else { s }
}

/// The first entry with job id `id` (meaningful when there is one).
pub open spec fn first_with_id(s: Seq<JobEntry>, id: u128) -> JobEntry {
    s[index_of_id(s, id)]
}

/// A job whose worker got a slot: cancelled if its flag is set, else running from 0%.
pub open spec fn started(e: JobEntry) -> JobEntry {
    if e.cancelled {
        JobEntry { job: Job { status: JobStatus::Cancelled, ..e.job }, ..e }
    } else {
        JobEntry { job: Job { status: JobStatus::Running, progress_permille: 0, ..e.job }, ..e }
    }
}

/// A job with a progress report: progress capped at 99.9%, speed and remaining time.
pub open spec fn progressed(e: JobEntry, permille: u32, speed: Option<u64>, eta: Option<u64>) -> JobEntry {
    JobEntry {
        job: Job {
            progress_permille: if permille <= 999 { permille } else { 999 },
            speed_centi: speed,
            eta_ms: eta,
            ..e.job
        },
        ..e
    }
}

/// A job that finished with an output of `size` bytes.
pub open spec fn succeeded(
    e: JobEntry,
    path: String,
    size: u64,
    dims: Option<(u32, u32)>,
    elapsed_ms: u64,
    finished_at: i64,
) -> JobEntry {
    JobEntry {
        job: Job {
            status: JobStatus::Done,
            progress_permille: 1000,
            output_path: Some(path),
            output_size: Some(size),
            output_width: match dims {
                Some(d) => Some(d.0),
                None => None,
            },
            output_height: match dims {
                Some(d) => Some(d.1),
                None => None,
            },
            larger: size > e.job.input.size,
            elapsed_ms: Some(elapsed_ms),
            finished_at: Some(finished_at),
            ..e.job
        },
        ..e
    }
}

/// A job whose run ended in an error: cancelled (without an error) when its flag
/// is set, else failed with the error.
pub open spec fn failed(e: JobEntry, error: String, elapsed_ms: u64) -> JobEntry {
    JobEntry {
        job: Job {
            status: if e.cancelled { JobStatus::Cancelled } else { JobStatus::Failed },
            error: if e.cancelled { None } else { Some(error) },
            elapsed_ms: Some(elapsed_ms),
            ..e.job
        },
        ..e
    }
}

impl JobTable {
    /// The position of the first job with this id.
    fn find(&self, id: u128) -> (r: Option<usize>)
        ensures
            match r {
                Some(k) => k == index_of_id(self.entries@, id) && k < self.entries@.len(),
                None => index_of_id(self.entries@, id) == self.entries@.len(),
            },
    {
        let mut i: usize = 0;
        while i < self.entries.len()
            invariant
                i <= self.entries@.len(),
                forall|j: int| 0 <= j < i ==> self.entries@[j].job.id != id,
            decreases self.entries@.len() - i,
        {
            if self.entries[i].job.id == id {
                proof {
                    lemma_index_is(self.entries@, id, i as int);
                }
                return Some(i);
            }
            i = i + 1;
        }
        proof {
            lemma_index_is(self.entries@, id, i as int);
        }
        None
    }

    /// Takes out the entry at `k`, for an update in place.
    fn take_at(&mut self, k: usize) -> (e: JobEntry)
        requires
            k < old(self).entries@.len(),
        ensures
            e == old(self).entries@[k as int],
            final(self).entries@ == old(self).entries@.remove(k as int),
    {
        self.entries.remove(k)
    }

    fn put_at(&mut self, k: usize, e: JobEntry)
        requires
            k <= old(self).entries@.len(),
        ensures
            final(self).entries@ == old(self).entries@.insert(k as int, e),
    {
        self.entries.insert(k, e);
    }

    /// Marks the job cancelled (it was cancelled while waiting for a slot).
    pub fn mark_cancelled(&mut self, id: u128)
        ensures
            final(self).entries@ == at_first(
                old(self).entries@,
                id,
                JobEntry {
                    job: Job { status: JobStatus::Cancelled, ..first_with_id(old(self).entries@, id).job },
                    ..first_with_id(old(self).entries@, id)
                },
            ),
    {
        if let Some(k) = self.find(id) {
            let mut e = self.take_at(k);
            e.job.status = JobStatus::Cancelled;
            self.put_at(k, e);
            assert(self.entries@ =~= at_first(
                old(self).entries@,
                id,
                JobEntry {
                    job: Job { status: JobStatus::Cancelled, ..first_with_id(old(self).entries@, id).job },
                    ..first_with_id(old(self).entries@, id)
                },
            ));
        }
    }

    /// The worker got a slot: the job starts, unless it was cancelled meanwhile.
    /// Returns whether the job should run.
    pub fn start(&mut self, id: u128) -> (run: bool)
        ensures
            final(self).entries@ == at_first(old(self).entries@, id, started(first_with_id(old(self).entries@, id))),
            run == (index_of_id(old(self).entries@, id) < old(self).entries@.len()
                && !first_with_id(old(self).entries@, id).cancelled),
    {
        match self.find(id) {
            Some(k) => {
                let mut e = self.take_at(k);
                let run = !e.cancelled;
                if e.cancelled {
                    e.job.status = JobStatus::Cancelled;
                } else {
                    e.job.status = JobStatus::Running;
                    e.job.progress_permille = 0;
                }
                self.put_at(k, e);
                assert(self.entries@ =~= at_first(old(self).entries@, id, started(first_with_id(old(self).entries@, id))));
                run
            },
            None => false,
        }
    }

    /// Records a progress report.
    pub fn report_progress(&mut self, id: u128, permille: u32, speed: Option<u64>, eta: Option<u64>)
        ensures
            final(self).entries@ == at_first(
                old(self).entries@,
                id,
                progressed(first_with_id(old(self).entries@, id), permille, speed, eta),
            ),
    {
        if let Some(k) = self.find(id) {
            let mut e = self.take_at(k);
            e.job.progress_permille = if permille <= 999 { permille } else { 999 };
            e.job.speed_centi = speed;
            e.job.eta_ms = eta;
            self.put_at(k, e);
            assert(self.entries@ =~= at_first(
                old(self).entries@,
                id,
                progressed(first_with_id(old(self).entries@, id), permille, speed, eta),
            ));
        }
    }

    /// Records the destination path once it is known.
    pub fn set_output_path(&mut self, id: u128, path: String)
        ensures
            final(self).entries@ == at_first(
                old(self).entries@,
                id,
                JobEntry {
                    job: Job { output_path: Some(path), ..first_with_id(old(self).entries@, id).job },
                    ..first_with_id(old(self).entries@, id)
                },
            ),
    {
        if let Some(k) = self.find(id) {
            let mut e = self.take_at(k);
            e.job.output_path = Some(path);
            self.put_at(k, e);
            assert(self.entries@ =~= at_first(
                old(self).entries@,
                id,
                JobEntry {
                    job: Job { output_path: Some(path), ..first_with_id(old(self).entries@, id).job },
                    ..first_with_id(old(self).entries@, id)
                },
            ));
        }
    }

    /// Records a successful run.
    pub fn finish_ok(
        &mut self,
        id: u128,
        path: String,
        size: u64,
        dims: Option<(u32, u32)>,
        elapsed_ms: u64,
        finished_at: i64,
    )
        ensures
            final(self).entries@ == at_first(
                old(self).entries@,
                id,
                succeeded(first_with_id(old(self).entries@, id), path, size, dims, elapsed_ms, finished_at),
            ),
    {
        if let Some(k) = self.find(id) {
            let mut e = self.take_at(k);
            let larger = size > e.job.input.size;
            e.job.status = JobStatus::Done;
            e.job.progress_permille = 1000;
            e.job.output_path = Some(path);
            e.job.output_size = Some(size);
            e.job.output_width = match dims {
                Some(d) => Some(d.0),
                None => None,
            };
            e.job.output_height = match dims {
                Some(d) => Some(d.1),
                None => None,
            };
            e.job.larger = larger;
            e.job.elapsed_ms = Some(elapsed_ms);
            e.job.finished_at = Some(finished_at);
            self.put_at(k, e);
            assert(self.entries@ =~= at_first(
                old(self).entries@,
                id,
                succeeded(first_with_id(old(self).entries@, id), path, size, dims, elapsed_ms, finished_at),
            ));
        }
    }

    /// Records a run that ended in an error.
    pub fn finish_err(&mut self, id: u128, error: String, elapsed_ms: u64)
        ensures
            final(self).entries@ == at_first(
                old(self).entries@,
                id,
                failed(first_with_id(old(self).entries@, id), error, elapsed_ms),
            ),
    {
        if let Some(k) = self.find(id) {
            let mut e = self.take_at(k);
            if e.cancelled {
                e.job.status = JobStatus::Cancelled;
                e.job.error = None;
            } else {
                e.job.status = JobStatus::Failed;
                e.job.error = Some(error);
            }
            e.job.elapsed_ms = Some(elapsed_ms);
            self.put_at(k, e);
            assert(self.entries@ =~= at_first(
                old(self).entries@,
                id,
                failed(first_with_id(old(self).entries@, id), error, elapsed_ms),
            ));
        }
    }
}

/// A cancelled job never ends up done or failed: a cancelled job that gets a slot
/// does not run, and its errors are reported as a cancellation.
pub proof fn law_cancelled_job_ends_cancelled(e: JobEntry, error: String, elapsed_ms: u64)
    requires
        e.cancelled,
    ensures
        started(e).job.status == JobStatus::Cancelled,
        failed(e, error, elapsed_ms).job.status == JobStatus::Cancelled,
        failed(e, error, elapsed_ms).job.error is None,
{
}

/// The index of the first entry with id `id` is `i` when entries before `i` have
/// other ids and entry `i` (if any) has this id.
proof fn lemma_index_is(s: Seq<JobEntry>, id: u128, i: int)
    requires
        0 <= i <= s.len(),
        forall|j: int| 0 <= j < i ==> s[j].job.id != id,
        i < s.len() ==> s[i].job.id == id,
    ensures
        index_of_id(s, id) == i,
    decreases i,
{
    if i > 0 {
        assert forall|j: int| 0 <= j < i - 1 implies s.skip(1)[j].job.id != id by {
            assert(s.skip(1)[j] == s[j + 1]);
        }
        lemma_index_is(s.skip(1), id, i - 1);
    }
}

/// After clearing, every job left is queued or running, and no queued or running
/// job was dropped.
pub proof fn law_clear_finished_keeps_active(s: Seq<JobEntry>)
    ensures
        forall|i: int| 0 <= i < active_entries(s).len() ==> is_active(#[trigger] active_entries(s)[i].job.status),
        forall|i: int| 0 <= i < s.len() && is_active(s[i].job.status) ==> active_entries(s).contains(#[trigger] s[i]),
    decreases s.len(),
{
    if s.len() > 0 {
        law_clear_finished_keeps_active(s.skip(1));
        let rest = active_entries(s.skip(1));
        assert forall|i: int| 0 <= i < active_entries(s).len() implies is_active(
            #[trigger] active_entries(s)[i].job.status,
        ) by {
            if is_active(s[0].job.status) && i > 0 {
                assert(active_entries(s)[i] == rest[i - 1]);
            }
        }
        assert forall|i: int| 0 <= i < s.len() && is_active(s[i].job.status) implies active_entries(
            s,
        ).contains(#[trigger] s[i]) by {
            if i == 0 {
                assert(active_entries(s)[0] == s[0]);
            } else {
                assert(s[i] == s.skip(1)[i - 1]);
                assert(rest.contains(s.skip(1)[i - 1]));
                let k = choose|k: int| 0 <= k < rest.len() && rest[k] == s[i];
                if is_active(s[0].job.status) {
                    assert(active_entries(s)[k + 1] == rest[k]);
                } else {
                    assert(active_entries(s)[k] == rest[k]);
                }
            }
        }
    }
}

/// After removing an id, no job with that id is left.
pub proof fn law_remove_drops_id(s: Seq<JobEntry>, id: u128)
    ensures
        forall|i: int| 0 <= i < without_id(s, id).len() ==> #[trigger] without_id(s, id)[i].job.id != id,
    decreases s.len(),
{
    if s.len() > 0 {
        law_remove_drops_id(s.skip(1), id);
        let rest = without_id(s.skip(1), id);
        assert forall|i: int| 0 <= i < without_id(s, id).len() implies #[trigger] without_id(
            s,
            id,
        )[i].job.id != id by {
            if s[0].job.id != id && i > 0 {
                assert(without_id(s, id)[i] == rest[i - 1]);
            }
        }
    }
}


/// How long a written output stays recorded, in milliseconds (one hour).
pub const PRODUCED_TTL_MS: u64 = 3_600_000;

/// One recorded output: its path and when it was recorded (milliseconds on a
/// monotonic clock).
#[derive(Debug)]
pub struct Produced {
    pub path: String,
    pub at_ms: u64,
}

/// Whether a record made at `at` is still fresh at `now`.
pub open spec fn fresh(at: u64, now: u64) -> bool {
    (if now >= at { now - at } else { 0 }) < PRODUCED_TTL_MS
}

/// The records that are still fresh at `now`, in order.
pub open spec fn fresh_records(s: Seq<Produced>, now: u64) -> Seq<Produced>
    decreases s.len(),
{
    if s.len() == 0 {
        s
    } else {
        let rest = fresh_records(s.skip(1), now);
        if fresh(s[0].at_ms, now) { seq![s[0]] + rest } else { rest }
    }
}

/// Whether some record names `p`.
pub open spec fn records_path(s: Seq<Produced>, p: Seq<char>) -> bool {
    exists|i: int| 0 <= i < s.len() && (#[trigger] s[i]).path@ == p
}

/// Output paths written recently: the folder watcher must never re-compress these.
pub struct ProducedLog {
    pub records: Vec<Produced>,
}

impl ProducedLog {
    /// An empty log.
    pub fn new() -> (l: ProducedLog)
        ensures
            l.records@ == Seq::<Produced>::empty(),
    {
        ProducedLog { records: Vec::new() }
    }

    /// Records `p` as written at `now_ms`, forgetting records older than an hour.
    pub fn mark_produced(&mut self, p: &str, now_ms: u64)
        ensures
            final(self).records@ == fresh_records(old(self).records@, now_ms).push(
                Produced { path: final(self).records@.last().path, at_ms: now_ms },
            ),
            final(self).records@.last().path@ == p@,
    {
        let ghost all = self.records@;
        let mut rest: Vec<Produced> = Vec::new();
        std::mem::swap(&mut rest, &mut self.records);
        let mut kept: Vec<Produced> = Vec::new();
        let total = rest.len();
        let mut i: usize = 0;
        assert(all.skip(0) =~= all);
        assert(kept@ + fresh_records(all, now_ms) =~= fresh_records(all, now_ms));
        while rest.len() > 0
            invariant
                all.len() == total,
                i + rest@.len() == total,
                rest@ == all.skip(i as int),
                kept@ + fresh_records(rest@, now_ms) == fresh_records(all, now_ms),
            decreases rest@.len(),
        {
            let ghost before = rest@;
            let r = rest.remove(0);
            assert(before.skip(1) =~= rest@);
            let ghost k0 = kept@;
            let age = if now_ms >= r.at_ms { now_ms - r.at_ms } else { 0 };
            if age < PRODUCED_TTL_MS {
                kept.push(r);
                assert(kept@ + fresh_records(rest@, now_ms) =~= k0 + fresh_records(before, now_ms));
            }
            i = i + 1;
            assert(rest@ =~= all.skip(i as int));
        }
        assert(fresh_records(rest@, now_ms) =~= Seq::<Produced>::empty());
        assert(kept@ =~= fresh_records(all, now_ms));
        kept.push(Produced { path: String::from_str(p), at_ms: now_ms });
        self.records = kept;
    }

    /// Whether `p` was recorded.
    pub fn was_produced(&self, p: &str) -> (r: bool)
        ensures
            r == records_path(self.records@, p@),
    {
        let mut i: usize = 0;
        while i < self.records.len()
            invariant
                i <= self.records@.len(),
                forall|j: int| 0 <= j < i ==> self.records@[j].path@ != p@,
            decreases self.records@.len() - i,
        {
            if crate::text::text_eq(self.records[i].path.as_str(), p) {
                return true;
            }
            i = i + 1;
        }
        false
    }
}

/// An output recorded as produced is reported as produced straight after.
pub proof fn law_marked_is_produced(s: Seq<Produced>, r: Produced)
    ensures
        records_path(s.push(r), r.path@),
{
    assert(s.push(r)[s.len() as int] == r);
}

/// The most history items kept.
pub const HISTORY_LIMIT: usize = 5000;

/// A finished job, as kept in the history.
#[derive(Debug)]
pub struct HistoryItem {
    pub id: u128,
    pub input_path: String,
    pub input_name: String,
    pub kind: MediaKind,
    pub output_path: String,
    pub input_size: u64,
    pub output_size: u64,
    pub finished_at: i64,
    pub elapsed_ms: u64,
}

impl HistoryItem {
    /// The history record of a finished job.
    pub fn of_job(job: &Job, output_path: String, output_size: u64, finished_at: i64, elapsed_ms: u64) -> (r: HistoryItem)
        ensures
            r == (HistoryItem {
                id: job.id,
                input_path: job.input.path,
                input_name: job.input.name,
                kind: job.input.kind,
                output_path,
                input_size: job.input.size,
                output_size,
                finished_at,
                elapsed_ms,
            }),
    {
        HistoryItem {
            id: job.id,
            input_path: job.input.path.clone(),
            input_name: job.input.name.clone(),
            kind: job.input.kind,
            output_path,
            input_size: job.input.size,
            output_size,
            finished_at,
            elapsed_ms,
        }
    }
}

/// The history with `item` appended, keeping the most recent `HISTORY_LIMIT` items.
pub open spec fn appended_history<T>(items: Seq<T>, item: T) -> Seq<T> {
    let all = items.push(item);
    if all.len() > HISTORY_LIMIT { all.skip(all.len() - HISTORY_LIMIT) } else { all }
}

/// Appends `item` to the history, dropping the oldest items beyond the limit.
pub fn append_history<T>(items: Vec<T>, item: T) -> (r: Vec<T>)
    ensures
        r@ == appended_history(items@, item),
{
    let mut items = items;
    items.push(item);
    if items.len() > HISTORY_LIMIT {
        let n = items.len() - HISTORY_LIMIT;
        let ghost all = items@;
        let kept = items.split_off(n);
        assert(kept@ =~= all.skip(n as int));
        kept
    } else {
        items
    }
}

/// The history never exceeds its limit, always ends with the newest item, and keeps
/// everything before it when there is room.
pub proof fn law_history_bounded<T>(items: Seq<T>, item: T)
    ensures
        appended_history(items, item).len() <= HISTORY_LIMIT,
        items.len() < HISTORY_LIMIT ==> appended_history(items, item) == items.push(item),
        appended_history(items, item).last() == item,
{
}

/// The last `limit` items (all of them when there are fewer).
pub fn last_items<T>(items: Vec<T>, limit: usize) -> (r: Vec<T>)
    ensures
        r@ == items@.skip(if items@.len() > limit { items@.len() - limit } else { 0 }),
{
    let mut items = items;
    let n: usize = if items.len() > limit { items.len() - limit } else { 0 };
    let ghost all = items@;
    let kept = items.split_off(n);
    assert(kept@ =~= all.skip(n as int));
    kept
}

} // verus!
