//! The persistent state store: four tables (jobs, datums, input files,
//! output files) with the invariants the reservation protocol relies on.
//!
//! Real deployments keep this state in a relational database; the store here
//! is the verified model of that data. All multi-row read-modify-write
//! sequences are single operations on `State`, which corresponds to running
//! them inside one transaction holding the necessary row locks.

use vstd::prelude::*;

use crate::datum::{Datum, DatumView};
use crate::input_file::{InputFile, InputFileView};
use crate::job::{Job, JobView};
use crate::output_file::{OutputFile, OutputFileView};
use crate::status::Status;

verus! {

/// The whole persistent state.
pub struct State {
    /// All submitted jobs.
    pub jobs: Vec<Job>,
    /// All datums, across all jobs.
    pub datums: Vec<Datum>,
    /// All input files, across all datums.
    pub input_files: Vec<InputFile>,
    /// All output files, across all datums.
    pub output_files: Vec<OutputFile>,
}

/// The mathematical image of the persistent state.
pub struct StateView {
    /// All submitted jobs.
    pub jobs: Seq<JobView>,
    /// All datums.
    pub datums: Seq<DatumView>,
    /// All input files.
    pub input_files: Seq<InputFileView>,
    /// All output files.
    pub output_files: Seq<OutputFileView>,
}

impl View for State {
    type V = StateView;

    open spec fn view(&self) -> StateView {
        StateView {
            jobs: self.jobs@.map_values(|j: Job| j@),
            datums: self.datums@.map_values(|d: Datum| d@),
            input_files: self.input_files@.map_values(|f: InputFile| f@),
            output_files: self.output_files@.map_values(|f: OutputFile| f@),
        }
    }
}

/// Some job row carries this id.
pub open spec fn has_job(jobs: Seq<JobView>, id: u128) -> bool {
    exists|i: int| 0 <= i < jobs.len() && jobs[i].id == id
}

/// The index of the job row with this id (unique in a well-formed state).
pub open spec fn job_index_of(jobs: Seq<JobView>, id: u128) -> int {
    choose|i: int| 0 <= i < jobs.len() && jobs[i].id == id
}

/// Some datum row carries this id.
pub open spec fn has_datum(datums: Seq<DatumView>, id: u128) -> bool {
    exists|i: int| 0 <= i < datums.len() && datums[i].id == id
}

/// The index of the datum row with this id (unique in a well-formed state).
pub open spec fn datum_index_of(datums: Seq<DatumView>, id: u128) -> int {
    choose|i: int| 0 <= i < datums.len() && datums[i].id == id
}

/// The input files of one datum, in insertion order.
pub open spec fn input_files_of(files: Seq<InputFileView>, datum_id: u128) -> Seq<InputFileView> {
    files.filter(|f: InputFileView| f.datum_id == datum_id)
}

impl StateView {
    /// Every job row is well-formed, ids are unique, and job names are
    /// unique.
    pub open spec fn jobs_wf(self) -> bool {
        &&& forall|i: int| 0 <= i < self.jobs.len() ==> (#[trigger] self.jobs[i]).wf()
        &&& forall|i: int, j: int|
            #![trigger self.jobs[i], self.jobs[j]]
            0 <= i < self.jobs.len() && 0 <= j < self.jobs.len() && self.jobs[i].id
                == self.jobs[j].id ==> i == j
        &&& forall|i: int, j: int|
            #![trigger self.jobs[i], self.jobs[j]]
            0 <= i < self.jobs.len() && 0 <= j < self.jobs.len() && self.jobs[i].job_name
                == self.jobs[j].job_name ==> i == j
    }

    /// Every datum row is well-formed, ids are unique, and a pod runs at
    /// most one datum of a job at a time.
    pub open spec fn datums_wf(self) -> bool {
        &&& forall|i: int| 0 <= i < self.datums.len() ==> (#[trigger] self.datums[i]).wf()
        &&& forall|i: int, j: int|
            #![trigger self.datums[i], self.datums[j]]
            0 <= i < self.datums.len() && 0 <= j < self.datums.len() && self.datums[i].id
                == self.datums[j].id ==> i == j
        &&& forall|i: int, j: int|
            #![trigger self.datums[i], self.datums[j]]
            0 <= i < self.datums.len() && 0 <= j < self.datums.len() && self.datums[i].status
                == Status::Running && self.datums[j].status == Status::Running
                && self.datums[i].job_id == self.datums[j].job_id && self.datums[i].pod_name
                == self.datums[j].pod_name ==> i == j
    }

    /// Every input-file row is well-formed and ids are unique.
    pub open spec fn input_files_wf(self) -> bool {
        &&& forall|i: int|
            0 <= i < self.input_files.len() ==> (#[trigger] self.input_files[i]).wf()
        &&& forall|i: int, j: int|
            #![trigger self.input_files[i], self.input_files[j]]
            0 <= i < self.input_files.len() && 0 <= j < self.input_files.len()
                && self.input_files[i].id == self.input_files[j].id ==> i == j
    }

    /// Every output-file row is well-formed and ids are unique.
    pub open spec fn output_files_wf(self) -> bool {
        &&& forall|i: int|
            0 <= i < self.output_files.len() ==> (#[trigger] self.output_files[i]).wf()
        &&& forall|i: int, j: int|
            #![trigger self.output_files[i], self.output_files[j]]
            0 <= i < self.output_files.len() && 0 <= j < self.output_files.len()
                && self.output_files[i].id == self.output_files[j].id ==> i == j
    }

    /// The store invariant: all four tables are well-formed.
    pub open spec fn wf(self) -> bool {
        self.jobs_wf() && self.datums_wf() && self.input_files_wf() && self.output_files_wf()
    }
}

/// A datum that is not yet settled: still to be run, or running.
pub open spec fn is_unfinished(d: DatumView) -> bool {
    d.status == Status::Ready || d.status == Status::Running
}

/// A datum that failed for good: an error with no retries left, or canceled.
pub open spec fn is_failed(d: DatumView) -> bool {
    (d.status == Status::Error && !d.is_rerunable()) || d.status == Status::Canceled
}

/// The number of datums of the given job satisfying `p`.
pub open spec fn count_datums(
    datums: Seq<DatumView>,
    job_id: u128,
    p: spec_fn(DatumView) -> bool,
) -> nat
    decreases datums.len(),
{
    if datums.len() == 0 {
        0
    } else {
        count_datums(datums.drop_last(), job_id, p) + if datums.last().job_id == job_id && p(
            datums.last(),
        ) {
            1nat
        } else {
            0nat
        }
    }
}

/// How many datums of the job are ready or running.
pub open spec fn count_unfinished(datums: Seq<DatumView>, job_id: u128) -> nat {
    count_datums(datums, job_id, |d: DatumView| is_unfinished(d))
}

/// How many datums of the job are done.
pub open spec fn count_done(datums: Seq<DatumView>, job_id: u128) -> nat {
    count_datums(datums, job_id, |d: DatumView| d.status == Status::Done)
}

/// How many datums of the job have errored but can still be re-run.
pub open spec fn count_rerunable(datums: Seq<DatumView>, job_id: u128) -> nat {
    count_datums(datums, job_id, |d: DatumView| d.is_rerunable())
}

/// How many datums of the job have failed for good.
pub open spec fn count_failed(datums: Seq<DatumView>, job_id: u128) -> nat {
    count_datums(datums, job_id, |d: DatumView| is_failed(d))
}

/// The number of datums owned by the job, whatever their status.
pub open spec fn count_all(datums: Seq<DatumView>, job_id: u128) -> nat {
    count_datums(datums, job_id, |d: DatumView| true)
}

/// What should happen to a running job, given its datums: `None` leaves the
/// status alone (work remains, or a rerunable datum will be retried);
/// otherwise every datum is settled, and the job becomes `Error` if any
/// datum failed for good, else `Done`.
pub open spec fn job_status_decision(datums: Seq<DatumView>, job_id: u128) -> Option<Status> {
    if count_unfinished(datums, job_id) > 0 || count_rerunable(datums, job_id) > 0 {
        None
    } else if count_failed(datums, job_id) > 0 {
        Some(Status::Error)
    } else {
        Some(Status::Done)
    }
}

/// How many datums of the job currently have the given status.
pub open spec fn count_with_status(datums: Seq<DatumView>, job_id: u128, status: Status) -> nat {
    count_datums(datums, job_id, |d: DatumView| d.status == status)
}

/// The coarse classes used by the job-status decision, expressed through the
/// per-status counts: unfinished datums are the ready and the running ones;
/// errored and canceled datums split into rerunable and failed; done datums
/// are their own class.
pub proof fn lemma_counts_by_status(datums: Seq<DatumView>, job_id: u128)
    ensures
        count_unfinished(datums, job_id) == count_with_status(datums, job_id, Status::Ready)
            + count_with_status(datums, job_id, Status::Running),
        count_done(datums, job_id) == count_with_status(datums, job_id, Status::Done),
        count_rerunable(datums, job_id) + count_failed(datums, job_id) == count_with_status(
            datums,
            job_id,
            Status::Error,
        ) + count_with_status(datums, job_id, Status::Canceled),
    decreases datums.len(),
{
    if datums.len() > 0 {
        lemma_counts_by_status(datums.drop_last(), job_id);
    }
}

/// Counting a prefix extended by one element, for a per-status count.
pub proof fn lemma_count_with_status_take_step(
    datums: Seq<DatumView>,
    job_id: u128,
    status: Status,
    i: int,
)
    requires
        0 <= i < datums.len(),
    ensures
        count_with_status(datums.take(i + 1), job_id, status) == count_with_status(
            datums.take(i),
            job_id,
            status,
        ) + if datums[i].job_id == job_id && datums[i].status == status {
            1nat
        } else {
            0nat
        },
{
    assert(datums.take(i + 1).drop_last() =~= datums.take(i));
    assert(datums.take(i + 1).last() == datums[i]);
}

/// Counting a prefix extended by one element, for the rerunable count.
pub proof fn lemma_count_rerunable_take_step(datums: Seq<DatumView>, job_id: u128, i: int)
    requires
        0 <= i < datums.len(),
    ensures
        count_rerunable(datums.take(i + 1), job_id) == count_rerunable(datums.take(i), job_id)
            + if datums[i].job_id == job_id && datums[i].is_rerunable() {
            1nat
        } else {
            0nat
        },
{
    assert(datums.take(i + 1).drop_last() =~= datums.take(i));
    assert(datums.take(i + 1).last() == datums[i]);
}

/// Replacing one job row preserves the job table invariant, provided the
/// replacement keeps the id and the name and is itself well-formed.
pub proof fn lemma_jobs_wf_update(jobs: Seq<JobView>, i: int, j1: JobView)
    requires
        forall|k: int| 0 <= k < jobs.len() ==> (#[trigger] jobs[k]).wf(),
        forall|k: int, l: int|
            #![trigger jobs[k], jobs[l]]
            0 <= k < jobs.len() && 0 <= l < jobs.len() && jobs[k].id == jobs[l].id ==> k == l,
        forall|k: int, l: int|
            #![trigger jobs[k], jobs[l]]
            0 <= k < jobs.len() && 0 <= l < jobs.len() && jobs[k].job_name == jobs[l].job_name
                ==> k == l,
        0 <= i < jobs.len(),
        j1.wf(),
        j1.id == jobs[i].id,
        j1.job_name == jobs[i].job_name,
    ensures
        forall|k: int| 0 <= k < jobs.update(i, j1).len() ==> (#[trigger] jobs.update(i, j1)[k]).wf(),
        forall|k: int, l: int|
            #![trigger jobs.update(i, j1)[k], jobs.update(i, j1)[l]]
            0 <= k < jobs.len() && 0 <= l < jobs.len() && jobs.update(i, j1)[k].id == jobs.update(
                i,
                j1,
            )[l].id ==> k == l,
        forall|k: int, l: int|
            #![trigger jobs.update(i, j1)[k], jobs.update(i, j1)[l]]
            0 <= k < jobs.len() && 0 <= l < jobs.len() && jobs.update(i, j1)[k].job_name
                == jobs.update(i, j1)[l].job_name ==> k == l,
{
}

/// Some job row carries this name.
pub open spec fn has_job_named(jobs: Seq<JobView>, name: Seq<char>) -> bool {
    exists|i: int| 0 <= i < jobs.len() && jobs[i].job_name == name
}

/// The index of the job row with this name (unique in a well-formed state).
pub open spec fn job_named_index_of(jobs: Seq<JobView>, name: Seq<char>) -> int {
    choose|i: int| 0 <= i < jobs.len() && jobs[i].job_name == name
}

/// Appending a job row preserves the job table invariant, provided the row
/// is well-formed and its id and name are fresh.
pub proof fn lemma_jobs_wf_push(jobs: Seq<JobView>, j1: JobView)
    requires
        forall|k: int| 0 <= k < jobs.len() ==> (#[trigger] jobs[k]).wf(),
        forall|k: int, l: int|
            #![trigger jobs[k], jobs[l]]
            0 <= k < jobs.len() && 0 <= l < jobs.len() && jobs[k].id == jobs[l].id ==> k == l,
        forall|k: int, l: int|
            #![trigger jobs[k], jobs[l]]
            0 <= k < jobs.len() && 0 <= l < jobs.len() && jobs[k].job_name == jobs[l].job_name
                ==> k == l,
        j1.wf(),
        !has_job(jobs, j1.id),
        !has_job_named(jobs, j1.job_name),
    ensures
        forall|k: int| 0 <= k < jobs.push(j1).len() ==> (#[trigger] jobs.push(j1)[k]).wf(),
        forall|k: int, l: int|
            #![trigger jobs.push(j1)[k], jobs.push(j1)[l]]
            0 <= k < jobs.push(j1).len() && 0 <= l < jobs.push(j1).len() && jobs.push(j1)[k].id
                == jobs.push(j1)[l].id ==> k == l,
        forall|k: int, l: int|
            #![trigger jobs.push(j1)[k], jobs.push(j1)[l]]
            0 <= k < jobs.push(j1).len() && 0 <= l < jobs.push(j1).len() && jobs.push(
                j1,
            )[k].job_name == jobs.push(j1)[l].job_name ==> k == l,
{
    assert forall|k: int, l: int|
        #![trigger jobs.push(j1)[k], jobs.push(j1)[l]]
        0 <= k < jobs.push(j1).len() && 0 <= l < jobs.push(j1).len() && jobs.push(j1)[k].id
            == jobs.push(j1)[l].id implies k == l by {
        if k < jobs.len() && l == jobs.len() {
            assert(jobs[k].id == j1.id);
        }
        if l < jobs.len() && k == jobs.len() {
            assert(jobs[l].id == j1.id);
        }
    }
    assert forall|k: int, l: int|
        #![trigger jobs.push(j1)[k], jobs.push(j1)[l]]
        0 <= k < jobs.push(j1).len() && 0 <= l < jobs.push(j1).len() && jobs.push(j1)[k].job_name
            == jobs.push(j1)[l].job_name implies k == l by {
        if k < jobs.len() && l == jobs.len() {
            assert(jobs[k].job_name == j1.job_name);
        }
        if l < jobs.len() && k == jobs.len() {
            assert(jobs[l].job_name == j1.job_name);
        }
    }
}

/// The job with this id exists and is running.
pub open spec fn job_is_running(jobs: Seq<JobView>, job_id: u128) -> bool {
    has_job(jobs, job_id) && jobs[job_index_of(jobs, job_id)].status == Status::Running
}

/// A per-status count never exceeds the table length.
pub proof fn lemma_count_with_status_le_len(datums: Seq<DatumView>, job_id: u128, status: Status)
    ensures
        count_with_status(datums, job_id, status) <= datums.len(),
    decreases datums.len(),
{
    if datums.len() > 0 {
        lemma_count_with_status_le_len(datums.drop_last(), job_id, status);
    }
}

/// The rerunable count never exceeds the table length.
pub proof fn lemma_count_rerunable_le_len(datums: Seq<DatumView>, job_id: u128)
    ensures
        count_rerunable(datums, job_id) <= datums.len(),
    decreases datums.len(),
{
    if datums.len() > 0 {
        lemma_count_rerunable_le_len(datums.drop_last(), job_id);
    }
}

/// Every rerunable datum is an errored datum.
pub proof fn lemma_rerunable_le_error(datums: Seq<DatumView>, job_id: u128)
    ensures
        count_rerunable(datums, job_id) <= count_with_status(datums, job_id, Status::Error),
    decreases datums.len(),
{
    if datums.len() > 0 {
        lemma_rerunable_le_error(datums.drop_last(), job_id);
    }
}

/// The four decision classes together hold no more datums than the table.
pub proof fn lemma_class_counts_le_len(datums: Seq<DatumView>, job_id: u128)
    ensures
        count_unfinished(datums, job_id) + count_done(datums, job_id) + count_rerunable(
            datums,
            job_id,
        ) + count_failed(datums, job_id) <= datums.len(),
    decreases datums.len(),
{
    if datums.len() > 0 {
        lemma_class_counts_le_len(datums.drop_last(), job_id);
    }
}

/// The datum is running this job on this pod.
pub open spec fn running_match(d: DatumView, job_id: u128, pod_name: Seq<char>) -> bool {
    d.job_id == job_id && d.status == Status::Running && d.pod_name == Some(pod_name)
}

/// Some datum of the job is already running on the pod.
pub open spec fn has_running_for_pod(datums: Seq<DatumView>, job_id: u128, pod_name: Seq<char>) -> bool {
    exists|i: int| 0 <= i < datums.len() && running_match(datums[i], job_id, pod_name)
}

/// The index of the datum the pod is already running (unique in a
/// well-formed state).
pub open spec fn running_index_for_pod(
    datums: Seq<DatumView>,
    job_id: u128,
    pod_name: Seq<char>,
) -> int {
    choose|i: int| 0 <= i < datums.len() && running_match(datums[i], job_id, pod_name)
}

/// In a well-formed table, any row running the job on the pod is the row
/// that `running_index_for_pod` picks.
pub proof fn lemma_pin_running_index(
    datums: Seq<DatumView>,
    i: int,
    job_id: u128,
    pod_name: Seq<char>,
)
    requires
        forall|k: int, j: int|
            #![trigger datums[k], datums[j]]
            0 <= k < datums.len() && 0 <= j < datums.len() && datums[k].status == Status::Running
                && datums[j].status == Status::Running && datums[k].job_id == datums[j].job_id
                && datums[k].pod_name == datums[j].pod_name ==> k == j,
        0 <= i < datums.len(),
        running_match(datums[i], job_id, pod_name),
    ensures
        has_running_for_pod(datums, job_id, pod_name),
        running_index_for_pod(datums, job_id, pod_name) == i,
{
    assert(has_running_for_pod(datums, job_id, pod_name));
    let j = running_index_for_pod(datums, job_id, pod_name);
    assert(0 <= j < datums.len() && running_match(datums[j], job_id, pod_name));
}

/// The index of the first ready datum of the job at or after position `i`,
/// or `-1` if there is none: the head of the job's work queue.
pub open spec fn first_ready_from(datums: Seq<DatumView>, job_id: u128, i: int) -> int
    decreases datums.len() - i,
{
    if i < 0 || i >= datums.len() {
        -1
    } else if datums[i].job_id == job_id && datums[i].status == Status::Ready {
        i
    } else {
        first_ready_from(datums, job_id, i + 1)
    }
}

/// The index of the first ready datum of the job, or `-1` if there is none.
pub open spec fn first_ready(datums: Seq<DatumView>, job_id: u128) -> int {
    first_ready_from(datums, job_id, 0)
}

/// Where `first_ready_from` lands: on a ready datum of the job, with none
/// earlier (at or after the start), or `-1` with none at all.
pub proof fn lemma_first_ready_props(datums: Seq<DatumView>, job_id: u128, i: int)
    requires
        0 <= i,
    ensures
        ({
            let r = first_ready_from(datums, job_id, i);
            &&& r == -1 || (i <= r < datums.len() && datums[r].job_id == job_id && datums[r].status
                == Status::Ready)
            &&& r == -1 ==> forall|k: int|
                i <= k < datums.len() ==> !((#[trigger] datums[k]).job_id == job_id && datums[k].status
                    == Status::Ready)
            &&& r != -1 ==> forall|k: int|
                i <= k < r ==> !((#[trigger] datums[k]).job_id == job_id && datums[k].status
                    == Status::Ready)
        }),
    decreases datums.len() - i,
{
    if i < datums.len() && !(datums[i].job_id == job_id && datums[i].status == Status::Ready) {
        lemma_first_ready_props(datums, job_id, i + 1);
    }
}

/// The counts of a job's datums depend only on that job's rows: two tables
/// that agree on every row of the job (and place other jobs' rows elsewhere)
/// yield the same counts.
pub proof fn lemma_counts_agree(d1: Seq<DatumView>, d2: Seq<DatumView>, job_id: u128)
    requires
        d1.len() == d2.len(),
        forall|t: int|
            0 <= t < d1.len() ==> (#[trigger] d1[t] == #[trigger] d2[t] || (d1[t].job_id != job_id
                && d2[t].job_id != job_id)),
    ensures
        count_unfinished(d1, job_id) == count_unfinished(d2, job_id),
        count_done(d1, job_id) == count_done(d2, job_id),
        count_rerunable(d1, job_id) == count_rerunable(d2, job_id),
        count_failed(d1, job_id) == count_failed(d2, job_id),
        job_status_decision(d1, job_id) == job_status_decision(d2, job_id),
    decreases d1.len(),
{
    if d1.len() > 0 {
        assert forall|t: int|
            0 <= t < d1.drop_last().len() implies (#[trigger] d1.drop_last()[t]
            == #[trigger] d2.drop_last()[t] || (d1.drop_last()[t].job_id != job_id
            && d2.drop_last()[t].job_id != job_id)) by {
            assert(d1[t] == d2[t] || (d1[t].job_id != job_id && d2[t].job_id != job_id));
        }
        lemma_counts_agree(d1.drop_last(), d2.drop_last(), job_id);
        assert(d1[d1.len() - 1] == d2[d1.len() - 1] || (d1[d1.len() - 1].job_id != job_id && d2[
            d1.len() - 1
        ].job_id != job_id));
    }
}

/// A job with an unfinished datum has a positive unfinished count, so its
/// status decision leaves it alone.
pub proof fn lemma_unfinished_positive(datums: Seq<DatumView>, job_id: u128, t: int)
    requires
        0 <= t < datums.len(),
        datums[t].job_id == job_id,
        is_unfinished(datums[t]),
    ensures
        count_unfinished(datums, job_id) > 0,
        job_status_decision(datums, job_id) is None,
    decreases datums.len(),
{
    if t == datums.len() - 1 {
    } else {
        assert(datums.drop_last()[t] == datums[t]);
        lemma_unfinished_positive(datums.drop_last(), job_id, t);
    }
}

/// The job row after `update_status_if_done` has looked at it: a job that is
/// not running is left alone; a running job takes the status the decision
/// assigns, if any.
pub open spec fn apply_status_decision(j: JobView, datums: Seq<DatumView>, now: int) -> JobView {
    if j.status == Status::Running {
        match job_status_decision(datums, j.id) {
            Some(st) => JobView { status: st, updated_at: now, ..j },
            None => j,
        }
    } else {
        j
    }
}

/// Every datum of a job is unfinished, done, rerunable or failed: the four
/// classes partition the job's datums, so their counts sum to the total.
pub proof fn lemma_status_counts_partition(datums: Seq<DatumView>, job_id: u128)
    ensures
        count_unfinished(datums, job_id) + count_done(datums, job_id) + count_rerunable(
            datums,
            job_id,
        ) + count_failed(datums, job_id) == count_all(datums, job_id),
    decreases datums.len(),
{
    if datums.len() > 0 {
        lemma_status_counts_partition(datums.drop_last(), job_id);
    }
}

/// Filtering a prefix extended by one element.
pub proof fn lemma_filter_take_step<A>(s: Seq<A>, pred: spec_fn(A) -> bool, i: int)
    requires
        0 <= i < s.len(),
    ensures
        s.take(i + 1).filter(pred) == if pred(s[i]) {
            s.take(i).filter(pred).push(s[i])
        } else {
            s.take(i).filter(pred)
        },
{
    reveal(Seq::filter);
    assert(s.take(i + 1).drop_last() =~= s.take(i));
    assert(s.take(i + 1).last() == s[i]);
}

/// The whole sequence is its own prefix of full length.
pub proof fn lemma_take_full<A>(s: Seq<A>)
    ensures
        s.take(s.len() as int) == s,
{
    assert(s.take(s.len() as int) =~= s);
}

/// Replacing one datum row preserves the datum table invariant, provided the
/// replacement keeps the id, is itself well-formed, and (if it is running)
/// no other row is running the same job on the same pod.
pub proof fn lemma_datums_wf_update(datums: Seq<DatumView>, i: int, d: DatumView)
    requires
        forall|k: int| 0 <= k < datums.len() ==> (#[trigger] datums[k]).wf(),
        forall|k: int, j: int|
            #![trigger datums[k], datums[j]]
            0 <= k < datums.len() && 0 <= j < datums.len() && datums[k].id == datums[j].id ==> k
                == j,
        forall|k: int, j: int|
            #![trigger datums[k], datums[j]]
            0 <= k < datums.len() && 0 <= j < datums.len() && datums[k].status == Status::Running
                && datums[j].status == Status::Running && datums[k].job_id == datums[j].job_id
                && datums[k].pod_name == datums[j].pod_name ==> k == j,
        0 <= i < datums.len(),
        d.wf(),
        d.id == datums[i].id,
        d.status == Status::Running ==> forall|k: int|
            0 <= k < datums.len() && k != i ==> !((#[trigger] datums[k]).status == Status::Running
                && datums[k].job_id == d.job_id && datums[k].pod_name == d.pod_name),
    ensures
        forall|k: int| 0 <= k < datums.update(i, d).len() ==> (#[trigger] datums.update(i, d)[k]).wf(),
        forall|k: int, j: int|
            #![trigger datums.update(i, d)[k], datums.update(i, d)[j]]
            0 <= k < datums.len() && 0 <= j < datums.len() && datums.update(i, d)[k].id
                == datums.update(i, d)[j].id ==> k == j,
        forall|k: int, j: int|
            #![trigger datums.update(i, d)[k], datums.update(i, d)[j]]
            0 <= k < datums.len() && 0 <= j < datums.len() && datums.update(i, d)[k].status
                == Status::Running && datums.update(i, d)[j].status == Status::Running
                && datums.update(i, d)[k].job_id == datums.update(i, d)[j].job_id && datums.update(
                i,
                d,
            )[k].pod_name == datums.update(i, d)[j].pod_name ==> k == j,
{
}

/// Appending a datum row preserves the datum table invariant, provided the
/// row is well-formed, its id is fresh, and it is not running.
pub proof fn lemma_datums_wf_push(datums: Seq<DatumView>, d: DatumView)
    requires
        forall|k: int| 0 <= k < datums.len() ==> (#[trigger] datums[k]).wf(),
        forall|k: int, j: int|
            #![trigger datums[k], datums[j]]
            0 <= k < datums.len() && 0 <= j < datums.len() && datums[k].id == datums[j].id ==> k
                == j,
        forall|k: int, j: int|
            #![trigger datums[k], datums[j]]
            0 <= k < datums.len() && 0 <= j < datums.len() && datums[k].status == Status::Running
                && datums[j].status == Status::Running && datums[k].job_id == datums[j].job_id
                && datums[k].pod_name == datums[j].pod_name ==> k == j,
        d.wf(),
        !has_datum(datums, d.id),
        d.status != Status::Running,
    ensures
        forall|k: int| 0 <= k < datums.push(d).len() ==> (#[trigger] datums.push(d)[k]).wf(),
        forall|k: int, j: int|
            #![trigger datums.push(d)[k], datums.push(d)[j]]
            0 <= k < datums.push(d).len() && 0 <= j < datums.push(d).len() && datums.push(d)[k].id
                == datums.push(d)[j].id ==> k == j,
        forall|k: int, j: int|
            #![trigger datums.push(d)[k], datums.push(d)[j]]
            0 <= k < datums.push(d).len() && 0 <= j < datums.push(d).len() && datums.push(
                d,
            )[k].status == Status::Running && datums.push(d)[j].status == Status::Running
                && datums.push(d)[k].job_id == datums.push(d)[j].job_id && datums.push(
                d,
            )[k].pod_name == datums.push(d)[j].pod_name ==> k == j,
{
    assert forall|k: int, j: int|
        #![trigger datums.push(d)[k], datums.push(d)[j]]
        0 <= k < datums.push(d).len() && 0 <= j < datums.push(d).len() && datums.push(d)[k].id
            == datums.push(d)[j].id implies k == j by {
        if k < datums.len() && j == datums.len() {
            assert(datums[k].id == d.id);
        }
        if j < datums.len() && k == datums.len() {
            assert(datums[j].id == d.id);
        }
    }
}

/// In a table with unique datum ids, any row holding the id is the row that
/// `datum_index_of` picks.
pub proof fn lemma_pin_datum_index(datums: Seq<DatumView>, i: int, id: u128)
    requires
        forall|k: int, j: int|
            #![trigger datums[k], datums[j]]
            0 <= k < datums.len() && 0 <= j < datums.len() && datums[k].id == datums[j].id ==> k
                == j,
        0 <= i < datums.len(),
        datums[i].id == id,
    ensures
        has_datum(datums, id),
        datum_index_of(datums, id) == i,
{
    assert(has_datum(datums, id));
    let j = datum_index_of(datums, id);
    assert(0 <= j < datums.len() && datums[j].id == id);
}

/// In a table with unique job ids, any row holding the id is the row that
/// `job_index_of` picks.
pub proof fn lemma_pin_job_index(jobs: Seq<JobView>, i: int, id: u128)
    requires
        forall|k: int, j: int|
            #![trigger jobs[k], jobs[j]]
            0 <= k < jobs.len() && 0 <= j < jobs.len() && jobs[k].id == jobs[j].id ==> k == j,
        0 <= i < jobs.len(),
        jobs[i].id == id,
    ensures
        has_job(jobs, id),
        job_index_of(jobs, id) == i,
{
    assert(has_job(jobs, id));
    let j = job_index_of(jobs, id);
    assert(0 <= j < jobs.len() && jobs[j].id == id);
}

/// Some output-file row carries this id.
pub open spec fn has_output_file(files: Seq<OutputFileView>, id: u128) -> bool {
    exists|i: int| 0 <= i < files.len() && files[i].id == id
}

/// The index of the output-file row with this id (unique in a well-formed
/// state).
pub open spec fn output_file_index_of(files: Seq<OutputFileView>, id: u128) -> int {
    choose|i: int| 0 <= i < files.len() && files[i].id == id
}

/// Some input-file row carries this id.
pub open spec fn has_input_file(files: Seq<InputFileView>, id: u128) -> bool {
    exists|i: int| 0 <= i < files.len() && files[i].id == id
}

/// In a table with unique output-file ids, any row holding the id is the row
/// that `output_file_index_of` picks.
pub proof fn lemma_pin_output_file_index(files: Seq<OutputFileView>, i: int, id: u128)
    requires
        forall|k: int, j: int|
            #![trigger files[k], files[j]]
            0 <= k < files.len() && 0 <= j < files.len() && files[k].id == files[j].id ==> k == j,
        0 <= i < files.len(),
        files[i].id == id,
    ensures
        has_output_file(files, id),
        output_file_index_of(files, id) == i,
{
    assert(has_output_file(files, id));
    let j = output_file_index_of(files, id);
    assert(0 <= j < files.len() && files[j].id == id);
}

/// Every row of a filtered table is a row of the original table.
pub proof fn lemma_output_filter_members(
    files: Seq<OutputFileView>,
    pred: spec_fn(OutputFileView) -> bool,
)
    ensures
        forall|k: int|
            0 <= k < files.filter(pred).len() ==> files.contains(#[trigger] files.filter(pred)[k]),
    decreases files.len(),
{
    reveal(Seq::filter);
    if files.len() > 0 {
        let head = files.drop_last();
        lemma_output_filter_members(head, pred);
        let sub = head.filter(pred);
        assert forall|k: int|
            0 <= k < files.filter(pred).len() implies files.contains(
            #[trigger] files.filter(pred)[k],
        ) by {
            if pred(files.last()) && k == sub.len() {
                assert(files.filter(pred)[k] == files[files.len() - 1]);
            } else {
                assert(files.filter(pred)[k] == sub[k]);
                assert(head.contains(sub[k]));
                let w = choose|w: int| 0 <= w < head.len() && head[w] == sub[k];
                assert(files[w] == sub[k]);
            }
        }
    }
}

/// Filtering a table with unique output-file ids keeps the ids unique and
/// the rows well-formed.
pub proof fn lemma_output_filter_wf(
    files: Seq<OutputFileView>,
    pred: spec_fn(OutputFileView) -> bool,
)
    requires
        forall|k: int| 0 <= k < files.len() ==> (#[trigger] files[k]).wf(),
        forall|k: int, j: int|
            #![trigger files[k], files[j]]
            0 <= k < files.len() && 0 <= j < files.len() && files[k].id == files[j].id ==> k == j,
    ensures
        forall|k: int|
            0 <= k < files.filter(pred).len() ==> (#[trigger] files.filter(pred)[k]).wf(),
        forall|k: int, j: int|
            #![trigger files.filter(pred)[k], files.filter(pred)[j]]
            0 <= k < files.filter(pred).len() && 0 <= j < files.filter(pred).len() && files.filter(
                pred,
            )[k].id == files.filter(pred)[j].id ==> k == j,
{
    lemma_output_filter_members(files, pred);
    assert forall|k: int|
        0 <= k < files.filter(pred).len() implies (#[trigger] files.filter(pred)[k]).wf() by {
        assert(files.contains(files.filter(pred)[k]));
        let w = choose|w: int| 0 <= w < files.len() && files[w] == files.filter(pred)[k];
        assert(files[w].wf());
    }
    assert forall|k: int, j: int|
        #![trigger files.filter(pred)[k], files.filter(pred)[j]]
        0 <= k < files.filter(pred).len() && 0 <= j < files.filter(pred).len() && files.filter(
            pred,
        )[k].id == files.filter(pred)[j].id implies k == j by {
        lemma_output_filter_distinct(files, pred);
    }
}

/// A filtered table of rows with pairwise-distinct ids has pairwise-distinct
/// ids at distinct positions.
proof fn lemma_output_filter_distinct(
    files: Seq<OutputFileView>,
    pred: spec_fn(OutputFileView) -> bool,
)
    requires
        forall|k: int, j: int|
            #![trigger files[k], files[j]]
            0 <= k < files.len() && 0 <= j < files.len() && files[k].id == files[j].id ==> k == j,
    ensures
        forall|k: int, j: int|
            #![trigger files.filter(pred)[k], files.filter(pred)[j]]
            0 <= k < files.filter(pred).len() && 0 <= j < files.filter(pred).len() && k != j
                ==> files.filter(pred)[k].id != files.filter(pred)[j].id,
    decreases files.len(),
{
    reveal(Seq::filter);
    if files.len() > 0 {
        let head = files.drop_last();
        assert forall|k: int, j: int|
            #![trigger head[k], head[j]]
            0 <= k < head.len() && 0 <= j < head.len() && head[k].id == head[j].id implies k
            == j by {
            assert(head[k] == files[k] && head[j] == files[j]);
        }
        lemma_output_filter_distinct(head, pred);
        lemma_output_filter_members(head, pred);
        let sub = head.filter(pred);
        if pred(files.last()) {
            assert(files.filter(pred) == sub.push(files.last()));
            assert forall|k: int, j: int|
                #![trigger files.filter(pred)[k], files.filter(pred)[j]]
                0 <= k < files.filter(pred).len() && 0 <= j < files.filter(pred).len() && k
                    != j implies files.filter(pred)[k].id != files.filter(pred)[j].id by {
                if k < sub.len() && j == sub.len() {
                    assert(head.contains(sub[k]));
                    let w = choose|w: int| 0 <= w < head.len() && head[w] == sub[k];
                    assert(files[w] == sub[k]);
                    if files[w].id == files[files.len() - 1].id {
                        assert(w == files.len() - 1);
                    }
                } else if j < sub.len() && k == sub.len() {
                    assert(head.contains(sub[j]));
                    let w = choose|w: int| 0 <= w < head.len() && head[w] == sub[j];
                    assert(files[w] == sub[j]);
                    if files[w].id == files[files.len() - 1].id {
                        assert(w == files.len() - 1);
                    }
                }
            }
        }
    }
}

/// Every row of a filtered datum table is a row of the original table.
pub proof fn lemma_datum_filter_members(datums: Seq<DatumView>, pred: spec_fn(DatumView) -> bool)
    ensures
        forall|k: int|
            0 <= k < datums.filter(pred).len() ==> datums.contains(
                #[trigger] datums.filter(pred)[k],
            ),
    decreases datums.len(),
{
    reveal(Seq::filter);
    if datums.len() > 0 {
        let head = datums.drop_last();
        lemma_datum_filter_members(head, pred);
        let sub = head.filter(pred);
        assert forall|k: int|
            0 <= k < datums.filter(pred).len() implies datums.contains(
            #[trigger] datums.filter(pred)[k],
        ) by {
            if pred(datums.last()) && k == sub.len() {
                assert(datums.filter(pred)[k] == datums[datums.len() - 1]);
            } else {
                assert(datums.filter(pred)[k] == sub[k]);
                assert(head.contains(sub[k]));
                let w = choose|w: int| 0 <= w < head.len() && head[w] == sub[k];
                assert(datums[w] == sub[k]);
            }
        }
    }
}

/// Appending an input-file row with a fresh id preserves the input-file
/// table invariant.
pub proof fn lemma_input_files_wf_push(files: Seq<InputFileView>, f: InputFileView)
    requires
        forall|k: int| 0 <= k < files.len() ==> (#[trigger] files[k]).wf(),
        forall|k: int, j: int|
            #![trigger files[k], files[j]]
            0 <= k < files.len() && 0 <= j < files.len() && files[k].id == files[j].id ==> k == j,
        f.wf(),
        !has_input_file(files, f.id),
    ensures
        forall|k: int| 0 <= k < files.push(f).len() ==> (#[trigger] files.push(f)[k]).wf(),
        forall|k: int, j: int|
            #![trigger files.push(f)[k], files.push(f)[j]]
            0 <= k < files.push(f).len() && 0 <= j < files.push(f).len() && files.push(f)[k].id
                == files.push(f)[j].id ==> k == j,
{
    assert forall|k: int, j: int|
        #![trigger files.push(f)[k], files.push(f)[j]]
        0 <= k < files.push(f).len() && 0 <= j < files.push(f).len() && files.push(f)[k].id
            == files.push(f)[j].id implies k == j by {
        if k < files.len() && j == files.len() {
            assert(files[k].id == f.id);
        }
        if j < files.len() && k == files.len() {
            assert(files[j].id == f.id);
        }
    }
}

/// Appending an output-file row with a fresh id preserves the output-file
/// table invariant.
pub proof fn lemma_output_files_wf_push(files: Seq<OutputFileView>, f: OutputFileView)
    requires
        forall|k: int| 0 <= k < files.len() ==> (#[trigger] files[k]).wf(),
        forall|k: int, j: int|
            #![trigger files[k], files[j]]
            0 <= k < files.len() && 0 <= j < files.len() && files[k].id == files[j].id ==> k == j,
        f.wf(),
        !has_output_file(files, f.id),
    ensures
        forall|k: int| 0 <= k < files.push(f).len() ==> (#[trigger] files.push(f)[k]).wf(),
        forall|k: int, j: int|
            #![trigger files.push(f)[k], files.push(f)[j]]
            0 <= k < files.push(f).len() && 0 <= j < files.push(f).len() && files.push(f)[k].id
                == files.push(f)[j].id ==> k == j,
{
    assert forall|k: int, j: int|
        #![trigger files.push(f)[k], files.push(f)[j]]
        0 <= k < files.push(f).len() && 0 <= j < files.push(f).len() && files.push(f)[k].id
            == files.push(f)[j].id implies k == j by {
        if k < files.len() && j == files.len() {
            assert(files[k].id == f.id);
        }
        if j < files.len() && k == files.len() {
            assert(files[j].id == f.id);
        }
    }
}

impl State {
    /// An empty store.
    pub fn new() -> (r: State)
        ensures
            r@.jobs =~= Seq::<JobView>::empty(),
            r@.datums =~= Seq::<DatumView>::empty(),
            r@.input_files =~= Seq::<InputFileView>::empty(),
            r@.output_files =~= Seq::<OutputFileView>::empty(),
            r@.wf(),
    {
        State { jobs: Vec::new(), datums: Vec::new(), input_files: Vec::new(), output_files: Vec::new() }
    }

    /// The index of the job row with the given id, if any.
    pub(crate) fn find_job_index(&self, id: u128) -> (r: Option<usize>)
        ensures
            match r {
                Some(i) => i < self@.jobs.len() && self@.jobs[i as int].id == id,
                None => !has_job(self@.jobs, id),
            },
    {
        let mut i: usize = 0;
        while i < self.jobs.len()
            invariant
                0 <= i <= self.jobs@.len(),
                forall|j: int| 0 <= j < i ==> (#[trigger] self@.jobs[j]).id != id,
            decreases self.jobs@.len() - i,
        {
            if self.jobs[i].id == id {
                return Some(i);
            }
            i += 1;
        }
        None
    }

    /// Roll an aborted transaction back: discard any rows appended to the
    /// job and datum tables past the given lengths.
    pub(crate) fn rollback_appends(&mut self, jobs_len: usize, datums_len: usize)
        requires
            jobs_len <= old(self)@.jobs.len(),
            datums_len <= old(self)@.datums.len(),
        ensures
            final(self)@ == (StateView {
                jobs: old(self)@.jobs.subrange(0, jobs_len as int),
                datums: old(self)@.datums.subrange(0, datums_len as int),
                ..old(self)@
            }),
    {
        let ghost raw_jobs = self.jobs@;
        let ghost raw_datums = self.datums@;
        let ghost mid = self@;
        self.jobs.truncate(jobs_len);
        self.datums.truncate(datums_len);
        proof {
            assert forall|i: int| 0 <= i < jobs_len implies #[trigger] self@.jobs[i]
                == mid.jobs[i] by {
                assert(self@.jobs[i] == self.jobs@[i]@);
                assert(self.jobs@[i] == raw_jobs[i]);
                assert(mid.jobs[i] == raw_jobs[i]@);
            }
            assert forall|i: int| 0 <= i < datums_len implies #[trigger] self@.datums[i]
                == mid.datums[i] by {
                assert(self@.datums[i] == self.datums@[i]@);
                assert(self.datums@[i] == raw_datums[i]);
                assert(mid.datums[i] == raw_datums[i]@);
            }
            assert(self@.jobs =~= mid.jobs.subrange(0, jobs_len as int));
            assert(self@.datums =~= mid.datums.subrange(0, datums_len as int));
        }
    }

    /// The index of the output-file row with the given id, if any.
    pub(crate) fn find_output_file_index(&self, id: u128) -> (r: Option<usize>)
        ensures
            match r {
                Some(i) => i < self@.output_files.len() && self@.output_files[i as int].id == id,
                None => !has_output_file(self@.output_files, id),
            },
    {
        let mut i: usize = 0;
        while i < self.output_files.len()
            invariant
                0 <= i <= self.output_files@.len(),
                forall|j: int| 0 <= j < i ==> (#[trigger] self@.output_files[j]).id != id,
            decreases self.output_files@.len() - i,
        {
            if self.output_files[i].id == id {
                return Some(i);
            }
            i += 1;
        }
        None
    }

    /// The index of the input-file row with the given id, if any.
    pub(crate) fn find_input_file_index(&self, id: u128) -> (r: Option<usize>)
        ensures
            match r {
                Some(i) => i < self@.input_files.len() && self@.input_files[i as int].id == id,
                None => !has_input_file(self@.input_files, id),
            },
    {
        let mut i: usize = 0;
        while i < self.input_files.len()
            invariant
                0 <= i <= self.input_files@.len(),
                forall|j: int| 0 <= j < i ==> (#[trigger] self@.input_files[j]).id != id,
            decreases self.input_files@.len() - i,
        {
            if self.input_files[i].id == id {
                return Some(i);
            }
            i += 1;
        }
        None
    }

    /// The index of the datum row with the given id, if any.
    pub(crate) fn find_datum_index(&self, id: u128) -> (r: Option<usize>)
        ensures
            match r {
                Some(i) => i < self@.datums.len() && self@.datums[i as int].id == id,
                None => !has_datum(self@.datums, id),
            },
    {
        let mut i: usize = 0;
        while i < self.datums.len()
            invariant
                0 <= i <= self.datums@.len(),
                forall|j: int| 0 <= j < i ==> (#[trigger] self@.datums[j]).id != id,
            decreases self.datums@.len() - i,
        {
            if self.datums[i].id == id {
                return Some(i);
            }
            i += 1;
        }
        None
    }
}

} // verus!
