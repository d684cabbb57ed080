use vstd::prelude::*;

verus! {

/// Identifier of a job in the host's job table.
#[derive(Clone, Copy, Debug, PartialEq, Eq, Structural)]
pub struct JobId(pub u64);

/// A unit of work: an action name and an opaque payload.
#[derive(Debug)]
pub struct JobSpec {
    pub name: String,
    pub payload: Vec<u8>,
}

/// The value of a `JobSpec`.
pub struct JobSpecView {
    pub name: Seq<char>,
    pub payload: Seq<u8>,
}

impl View for JobSpec {
    type V = JobSpecView;

    open spec fn view(&self) -> JobSpecView {
        JobSpecView { name: self.name@, payload: self.payload@ }
    }
}

/// A tree of jobs: a single leaf, or children run one after the other.
#[derive(Debug)]
pub enum JobGraph {
    Leaf(JobSpec),
    Sequence(Vec<JobGraph>),
}

/// Lifecycle of a job in the host's table.
#[derive(Clone, Copy, Debug, PartialEq, Eq, Structural)]
pub enum JobStatus {
    Queued,
    Running,
    Cancelling,
    Cancelled,
    Succeeded,
    Failed,
}

/// One row of the host's job table, as a handler sees it.
#[derive(Debug)]
pub struct JobRecord {
    pub job_id: JobId,
    pub parent: Option<JobId>,
    pub status: JobStatus,
    /// The spec of a leaf; `None` for a sequence node.
    pub job_spec: Option<JobSpec>,
}

/// The value of a `JobRecord`.
pub struct JobRecordView {
    pub job_id: JobId,
    pub parent: Option<JobId>,
    pub status: JobStatus,
    pub job_spec: Option<JobSpecView>,
}

impl View for JobRecord {
    type V = JobRecordView;

    open spec fn view(&self) -> JobRecordView {
        JobRecordView {
            job_id: self.job_id,
            parent: self.parent,
            status: self.status,
            job_spec: match self.job_spec {
                Some(spec) => Some(spec@),
                None => None,
            },
        }
    }
}

/// The values of a job table.
pub open spec fn records_view(jobs: Seq<JobRecord>) -> Seq<JobRecordView> {
    jobs.map_values(|record: JobRecord| record@)
}

/// A change to the job table that a handler asks the host to make, in order.
#[derive(Debug)]
pub enum JobOp {
    /// Add a new job graph.
    Enqueue(JobGraph),
    /// Mark a running leaf as finished; a no-op on a job that is already terminal.
    Complete { job_id: JobId, succeeded: bool },
    /// Cancel a job and its descendants; a no-op on a job that is already terminal.
    Cancel { job_id: JobId },
}

impl JobSpec {
    /// A copy of this spec.
    pub fn duplicate(&self) -> (out: JobSpec)
        ensures
            out@ == self@,
    {
        JobSpec { name: self.name.clone(), payload: self.payload.clone() }
    }
}

impl JobRecord {
    /// A copy of this record.
    pub fn duplicate(&self) -> (out: JobRecord)
        ensures
            out@ == self@,
    {
        let job_spec = match &self.job_spec {
            Some(spec) => Some(spec.duplicate()),
            None => None,
        };
        JobRecord { job_id: self.job_id, parent: self.parent, status: self.status, job_spec }
    }
}

/// A copy of a job table.
pub fn duplicate_records(jobs: &[JobRecord]) -> (out: Vec<JobRecord>)
    ensures
        records_view(out@) == records_view(jobs@),
{
    let mut out: Vec<JobRecord> = Vec::new();
    let mut i: usize = 0;
    while i < jobs.len()
        invariant
            i <= jobs@.len(),
            out@.len() == i,
            forall|k: int| 0 <= k < i ==> #[trigger] out@[k]@ == jobs@[k]@,
        decreases jobs@.len() - i,
    {
        out.push(jobs[i].duplicate());
        i += 1;
    }
    assert(records_view(out@) =~= records_view(jobs@));
    out
}

} // verus!
