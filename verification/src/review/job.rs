//! The scoring job: one at a time, with its progress and its last lines.
use vstd::prelude::*;

verus! {

/// Where the job stands.
#[derive(Debug, PartialEq)]
pub enum JobStatus {
    /// No job was started yet.
    Idle,
    /// A job runs.
    Running { done: usize, total: usize },
    /// The last job is done.
    Done { summary: String },
    /// The last job failed.
    Failed { error: String },
}

/// Where the job stands, as text and numbers.
pub enum StatusView {
    Idle,
    Running { done: usize, total: usize },
    Done { summary: Seq<char> },
    Failed { error: Seq<char> },
}

impl View for JobStatus {
    type V = StatusView;

    open spec fn view(&self) -> StatusView {
        match self {
            JobStatus::Idle => StatusView::Idle,
            JobStatus::Running { done, total } => StatusView::Running {
                done: *done,
                total: *total,
            },
            JobStatus::Done { summary } => StatusView::Done { summary: summary@ },
            JobStatus::Failed { error } => StatusView::Failed { error: error@ },
        }
    }
}

impl Clone for JobStatus {
    fn clone(&self) -> (r: Self)
        ensures
            r@ == self@,
    {
        match self {
            JobStatus::Idle => JobStatus::Idle,
            JobStatus::Running { done, total } => JobStatus::Running {
                done: *done,
                total: *total,
            },
            JobStatus::Done { summary } => JobStatus::Done { summary: summary.clone() },
            JobStatus::Failed { error } => JobStatus::Failed { error: error.clone() },
        }
    }
}

/// How many lines are kept.
pub const LOG_CAP: usize = 200;

/// The job and its last lines.
#[derive(Debug)]
pub struct JobState {
    status: JobStatus,
    log: Vec<String>,
}

/// What a `JobState` holds.
pub struct JobView {
    pub status: StatusView,
    pub log: Seq<Seq<char>>,
}

/// The last lines, as many as are kept.
pub open spec fn capped(lines: Seq<Seq<char>>) -> Seq<Seq<char>> {
    if lines.len() > 200 {
        lines.skip(lines.len() - 200)
    } else {
        lines
    }
}

/// The lines of a log.
pub open spec fn lines_of(log: Seq<String>) -> Seq<Seq<char>> {
    log.map_values(|s: String| s@)
}

impl View for JobState {
    type V = JobView;

    closed spec fn view(&self) -> JobView {
        JobView { status: self.status@, log: lines_of(self.log@) }
    }
}

impl JobState {
    /// No more lines than are kept.
    pub open spec fn wf(&self) -> bool {
        self@.log.len() <= 200
    }

    /// No job yet.
    pub fn new() -> (r: Self)
        ensures
            r.wf(),
            r@.status == StatusView::Idle,
            r@.log == Seq::<Seq<char>>::empty(),
    {
        let r = JobState { status: JobStatus::Idle, log: Vec::new() };
        assert(r@.log =~= Seq::<Seq<char>>::empty());
        r
    }

    /// Where the job stands.
    pub fn status(&self) -> (r: JobStatus)
        ensures
            r@ == self@.status,
    {
        self.status.clone()
    }

    /// Tells whether a job runs.
    pub fn is_running(&self) -> (r: bool)
        ensures
            r == (self@.status is Running),
    {
        match self.status {
            JobStatus::Running { .. } => true,
            _ => false,
        }
    }

    /// Starts a job, with an empty log; refused while one runs.
    pub fn begin(&mut self) -> (r: bool)
        ensures
            r == !(old(self)@.status is Running),
            r ==> final(self)@.status == (StatusView::Running { done: 0, total: 0 })
                && final(self)@.log == Seq::<Seq<char>>::empty() && final(self).wf(),
            !r ==> final(self)@ == old(self)@,
    {
        if self.is_running() {
            return false;
        }
        self.status = JobStatus::Running { done: 0, total: 0 };
        self.log.clear();
        assert(self@.log =~= Seq::<Seq<char>>::empty());
        true
    }

    /// Notes how far the job is; nothing happens while none runs.
    pub fn progress(&mut self, done: usize, total: usize)
        ensures
            final(self)@.log == old(self)@.log,
            final(self)@.status == if old(self)@.status is Running {
                StatusView::Running { done, total }
            } else {
                old(self)@.status
            },
    {
        if self.is_running() {
            self.status = JobStatus::Running { done, total };
        }
    }

    /// Appends a line to the log; of more lines than are kept the oldest is dropped.
    pub fn log(&mut self, line: String)
        requires
            old(self).wf(),
        ensures
            final(self).wf(),
            final(self)@.status == old(self)@.status,
            final(self)@.log == capped(old(self)@.log.push(line@)),
    {
        let ghost before = self.log@;
        assert(lines_of(before).len() == before.len());
        self.log.push(line);
        assert(lines_of(self.log@) =~= lines_of(before).push(line@));
        if self.log.len() > LOG_CAP {
            let ghost full = self.log@;
            let _ = self.log.remove(0);
            assert(lines_of(self.log@) =~= lines_of(full).skip(1));
        }
    }

    /// The job is done.
    pub fn finish(&mut self, summary: String)
        ensures
            final(self)@.status == (StatusView::Done { summary: summary@ }),
            final(self)@.log == old(self)@.log,
    {
        self.status = JobStatus::Done { summary };
    }

    /// The job failed.
    pub fn fail(&mut self, error: String)
        ensures
            final(self)@.status == (StatusView::Failed { error: error@ }),
            final(self)@.log == old(self)@.log,
    {
        self.status = JobStatus::Failed { error };
    }

    /// Where the job stands, and its last lines.
    pub fn snapshot(&self) -> (r: (JobStatus, Vec<String>))
        ensures
            r.0@ == self@.status,
            lines_of(r.1@) == self@.log,
    {
        let mut lines: Vec<String> = Vec::new();
        let mut i: usize = 0;
        while i < self.log.len()
            invariant
                i <= self.log.len(),
                lines.len() == i,
                forall|k: int| 0 <= k < i ==> (#[trigger] lines[k])@ == self.log[k]@,
            decreases self.log.len() - i,
        {
            lines.push(self.log[i].clone());
            i += 1;
        }
        assert(lines_of(lines@) =~= lines_of(self.log@));
        (self.status.clone(), lines)
    }
}

/// The log always ends with the line that was written last.
pub proof fn last_line_stays(lines: Seq<Seq<char>>, line: Seq<char>)
    ensures
        capped(lines.push(line)).len() > 0,
        capped(lines.push(line)).last() == line,
{
}

/// The log keeps the last 200 lines, in their order, and all of fewer.
pub proof fn the_last_lines_are_kept(lines: Seq<Seq<char>>)
    ensures
        lines.len() <= 200 ==> capped(lines) == lines,
        lines.len() > 200 ==> capped(lines).len() == 200 && forall|i: int|
            0 <= i < 200 ==> #[trigger] capped(lines)[i] == lines[lines.len() - 200 + i],
{
}

} // verus!
