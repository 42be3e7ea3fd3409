//! Jobs: submitted pipeline runs.

use vstd::prelude::*;

use crate::datum::{reserved, Datum, DatumView};
use crate::error::Error;
use crate::ids::fresh_uuid;
use crate::input_file::InputFile;
use crate::state::{
    apply_status_decision, count_rerunable, count_with_status, first_ready, first_ready_from,
    has_job, has_job_named, has_running_for_pod, input_files_of, job_index_of,
    job_named_index_of, lemma_class_counts_le_len, lemma_count_rerunable_le_len,
    lemma_count_rerunable_take_step, lemma_count_with_status_le_len,
    lemma_count_with_status_take_step, lemma_counts_by_status, lemma_datums_wf_update,
    lemma_filter_take_step, lemma_jobs_wf_push, lemma_jobs_wf_update, lemma_pin_job_index,
    lemma_pin_running_index, lemma_rerunable_le_error, lemma_take_full, running_index_for_pod,
    running_match, State, StateView,
};
use crate::status::Status;
use crate::text::{clone_opt_string, clone_string_vec, str_eq};

verus! {

/// A distributed data processing job.
#[derive(Debug)]
pub struct Job {
    /// The unique ID of this job.
    pub id: u128,
    /// When this job was created (microseconds since the epoch).
    pub created_at: i64,
    /// When this job was last updated.
    pub updated_at: i64,
    /// The current status of this job.
    pub status: Status,
    /// A copy of the original pipeline spec, as a JSON document. The core
    /// treats it as an opaque blob; it is retained so that a job can be
    /// retried.
    pub pipeline_spec: String,
    /// The Kubernetes `Job` name for this job.
    pub job_name: String,
    /// The command to run in the worker container.
    pub command: Vec<String>,
    /// The output bucket or bucket path.
    pub egress_uri: String,
}

/// The mathematical image of a `Job`.
pub struct JobView {
    /// The unique ID of this job.
    pub id: u128,
    /// When this job was created.
    pub created_at: int,
    /// When this job was last updated.
    pub updated_at: int,
    /// The current status of this job.
    pub status: Status,
    /// The retained pipeline spec blob.
    pub pipeline_spec: Seq<char>,
    /// The Kubernetes job name.
    pub job_name: Seq<char>,
    /// The worker command.
    pub command: Seq<Seq<char>>,
    /// The output bucket or bucket path.
    pub egress_uri: Seq<char>,
}

impl View for Job {
    type V = JobView;

    open spec fn view(&self) -> JobView {
        JobView {
            id: self.id,
            created_at: self.created_at as int,
            updated_at: self.updated_at as int,
            status: self.status,
            pipeline_spec: self.pipeline_spec@,
            job_name: self.job_name@,
            command: self.command.deep_view(),
            egress_uri: self.egress_uri@,
        }
    }
}

impl JobView {
    /// The record invariant that every stored job satisfies.
    pub open spec fn wf(self) -> bool {
        0 <= self.created_at <= i64::MAX && 0 <= self.updated_at <= i64::MAX
    }
}

impl Job {
    /// An exact copy of this job.
    pub fn duplicate(&self) -> (r: Job)
        ensures
            r@ == self@,
    {
        let r = Job {
            id: self.id,
            created_at: self.created_at,
            updated_at: self.updated_at,
            status: self.status,
            pipeline_spec: self.pipeline_spec.clone(),
            job_name: self.job_name.clone(),
            command: clone_string_vec(&self.command),
            egress_uri: self.egress_uri.clone(),
        };
        proof {
            assert(r.command.deep_view() =~= self.command.deep_view());
        }
        r
    }
}

/// One pass over the datum table: how many datums of one job hold each
/// status, and how many are rerunable.
struct DatumCounts {
    /// Datums with status ready.
    ready: usize,
    /// Datums with status running.
    running: usize,
    /// Datums with status done.
    done: usize,
    /// Datums with status error.
    error: usize,
    /// Datums with status canceled.
    canceled: usize,
    /// Errored datums with attempts left.
    rerunable: usize,
}

/// Count the datums of one job, by status and by rerunability.
fn count_datum_statuses(job_id: u128, state: &State) -> (r: DatumCounts)
    ensures
        r.ready == count_with_status(state@.datums, job_id, Status::Ready),
        r.running == count_with_status(state@.datums, job_id, Status::Running),
        r.done == count_with_status(state@.datums, job_id, Status::Done),
        r.error == count_with_status(state@.datums, job_id, Status::Error),
        r.canceled == count_with_status(state@.datums, job_id, Status::Canceled),
        r.rerunable == count_rerunable(state@.datums, job_id),
{
    let ghost datums = state@.datums;
    let mut counts = DatumCounts {
        ready: 0,
        running: 0,
        done: 0,
        error: 0,
        canceled: 0,
        rerunable: 0,
    };
    let mut i: usize = 0;
    while i < state.datums.len()
        invariant
            0 <= i <= datums.len(),
            datums == state@.datums,
            counts.ready == count_with_status(datums.take(i as int), job_id, Status::Ready),
            counts.running == count_with_status(datums.take(i as int), job_id, Status::Running),
            counts.done == count_with_status(datums.take(i as int), job_id, Status::Done),
            counts.error == count_with_status(datums.take(i as int), job_id, Status::Error),
            counts.canceled == count_with_status(datums.take(i as int), job_id, Status::Canceled),
            counts.rerunable == count_rerunable(datums.take(i as int), job_id),
        decreases datums.len() - i,
    {
        proof {
            lemma_count_with_status_take_step(datums, job_id, Status::Ready, i as int);
            lemma_count_with_status_take_step(datums, job_id, Status::Running, i as int);
            lemma_count_with_status_take_step(datums, job_id, Status::Done, i as int);
            lemma_count_with_status_take_step(datums, job_id, Status::Error, i as int);
            lemma_count_with_status_take_step(datums, job_id, Status::Canceled, i as int);
            lemma_count_rerunable_take_step(datums, job_id, i as int);
            lemma_count_with_status_le_len(datums.take(i as int), job_id, Status::Ready);
            lemma_count_with_status_le_len(datums.take(i as int), job_id, Status::Running);
            lemma_count_with_status_le_len(datums.take(i as int), job_id, Status::Done);
            lemma_count_with_status_le_len(datums.take(i as int), job_id, Status::Error);
            lemma_count_with_status_le_len(datums.take(i as int), job_id, Status::Canceled);
            lemma_count_rerunable_le_len(datums.take(i as int), job_id);
        }
        let d = &state.datums[i];
        if d.job_id == job_id {
            match d.status {
                Status::Ready => {
                    counts.ready = counts.ready + 1;
                },
                Status::Running => {
                    counts.running = counts.running + 1;
                },
                Status::Done => {
                    counts.done = counts.done + 1;
                },
                Status::Error => {
                    counts.error = counts.error + 1;
                },
                Status::Canceled => {
                    counts.canceled = counts.canceled + 1;
                },
            }
            if d.is_rerunable() {
                counts.rerunable = counts.rerunable + 1;
            }
        }
        i += 1;
    }
    proof {
        lemma_take_full(datums);
    }
    counts
}

impl Job {
    /// Find a job by ID.
    pub fn find(id: u128, state: &State) -> (r: Result<Job, Error>)
        requires
            state@.wf(),
        ensures
            match r {
                Ok(j) => has_job(state@.jobs, id) && j@ == state@.jobs[job_index_of(
                    state@.jobs,
                    id,
                )],
                Err(e) => e == Error::NotFound && !has_job(state@.jobs, id),
            },
    {
        match state.find_job_index(id) {
            Some(i) => {
                proof {
                    lemma_pin_job_index(state@.jobs, i as int, id);
                }
                Ok(state.jobs[i].duplicate())
            },
            None => Err(Error::NotFound),
        }
    }

    /// Find a job by its Kubernetes job name.
    pub fn find_by_job_name(job_name: &str, state: &State) -> (r: Result<Job, Error>)
        requires
            state@.wf(),
        ensures
            match r {
                Ok(j) => has_job_named(state@.jobs, job_name@) && j@ == state@.jobs[
                    job_named_index_of(state@.jobs, job_name@)
                ],
                Err(e) => e == Error::NotFound && !has_job_named(state@.jobs, job_name@),
            },
    {
        let mut i: usize = 0;
        while i < state.jobs.len()
            invariant
                state@.wf(),
                0 <= i <= state@.jobs.len(),
                forall|k: int| 0 <= k < i ==> (#[trigger] state@.jobs[k]).job_name != job_name@,
            decreases state@.jobs.len() - i,
        {
            if str_eq(state.jobs[i].job_name.as_str(), job_name) {
                proof {
                    assert(state@.jobs[i as int].job_name == job_name@);
                    assert(has_job_named(state@.jobs, job_name@));
                    let w = job_named_index_of(state@.jobs, job_name@);
                    assert(0 <= w < state@.jobs.len() && state@.jobs[w].job_name == job_name@);
                    assert(w == i);
                }
                return Ok(state.jobs[i].duplicate());
            }
            i += 1;
        }
        Err(Error::NotFound)
    }

    /// Find all jobs with the specified status, in table order.
    pub fn find_by_status(status: Status, state: &State) -> (r: Vec<Job>)
        ensures
            r@.map_values(|j: Job| j@) == state@.jobs.filter(|j: JobView| j.status == status),
    {
        let ghost jobs = state@.jobs;
        let mut r: Vec<Job> = Vec::new();
        let mut i: usize = 0;
        proof {
            reveal(Seq::filter);
        }
        while i < state.jobs.len()
            invariant
                0 <= i <= jobs.len(),
                jobs == state@.jobs,
                r@.map_values(|j: Job| j@) == jobs.take(i as int).filter(
                    |j: JobView| j.status == status,
                ),
            decreases jobs.len() - i,
        {
            proof {
                lemma_filter_take_step(jobs, |j: JobView| j.status == status, i as int);
            }
            if state.jobs[i].status == status {
                let ghost prior = r@;
                r.push(state.jobs[i].duplicate());
                proof {
                    assert(r@.map_values(|j: Job| j@) =~= prior.map_values(|j: Job| j@).push(
                        jobs[i as int],
                    ));
                }
            }
            i += 1;
        }
        proof {
            lemma_take_full(jobs);
        }
        r
    }

    /// Get all known jobs, in table order.
    pub fn list(state: &State) -> (r: Vec<Job>)
        ensures
            r@.map_values(|j: Job| j@) == state@.jobs,
    {
        let mut r: Vec<Job> = Vec::new();
        let mut i: usize = 0;
        while i < state.jobs.len()
            invariant
                0 <= i <= state@.jobs.len(),
                r@.map_values(|j: Job| j@) == state@.jobs.take(i as int),
            decreases state@.jobs.len() - i,
        {
            let ghost prior = r@;
            r.push(state.jobs[i].duplicate());
            proof {
                assert(r@.map_values(|j: Job| j@) =~= prior.map_values(|j: Job| j@).push(
                    state@.jobs[i as int],
                ));
                assert(state@.jobs.take(i as int).push(state@.jobs[i as int]) =~= state@.jobs.take(
                    i + 1,
                ));
            }
            i += 1;
        }
        proof {
            lemma_take_full(state@.jobs);
        }
        r
    }

    /// Get all this job's datums that currently have the given status, in
    /// table order.
    pub fn datums_with_status(&self, status: Status, state: &State) -> (r: Vec<Datum>)
        ensures
            r@.map_values(|d: Datum| d@) == state@.datums.filter(
                |d: DatumView| d.job_id == self.id && d.status == status,
            ),
    {
        let ghost datums = state@.datums;
        let mut r: Vec<Datum> = Vec::new();
        let mut i: usize = 0;
        proof {
            reveal(Seq::filter);
        }
        while i < state.datums.len()
            invariant
                0 <= i <= datums.len(),
                datums == state@.datums,
                r@.map_values(|d: Datum| d@) == datums.take(i as int).filter(
                    |d: DatumView| d.job_id == self.id && d.status == status,
                ),
            decreases datums.len() - i,
        {
            proof {
                lemma_filter_take_step(
                    datums,
                    |d: DatumView| d.job_id == self.id && d.status == status,
                    i as int,
                );
            }
            let d = &state.datums[i];
            if d.job_id == self.id && d.status == status {
                let ghost prior = r@;
                r.push(d.duplicate());
                proof {
                    assert(r@.map_values(|d: Datum| d@) =~= prior.map_values(|d: Datum| d@).push(
                        datums[i as int],
                    ));
                }
            }
            i += 1;
        }
        proof {
            lemma_take_full(datums);
        }
        r
    }

    /// Get the number of this job's datums with each status, together with
    /// how many are rerunable; statuses with no datums are left out.
    pub fn datum_status_counts(&self, state: &State) -> (r: Vec<DatumStatusCount>)
        ensures
            r@ == spec_status_counts(state@.datums, self.id),
    {
        let counts = count_datum_statuses(self.id, state);
        proof {
            lemma_count_with_status_le_len(state@.datums, self.id, Status::Ready);
            lemma_count_with_status_le_len(state@.datums, self.id, Status::Running);
            lemma_count_with_status_le_len(state@.datums, self.id, Status::Done);
            lemma_count_with_status_le_len(state@.datums, self.id, Status::Error);
            lemma_count_with_status_le_len(state@.datums, self.id, Status::Canceled);
            lemma_count_rerunable_le_len(state@.datums, self.id);
        }
        let mut r: Vec<DatumStatusCount> = Vec::new();
        if counts.ready > 0 {
            r.push(
                DatumStatusCount {
                    status: Status::Ready,
                    count: counts.ready as u64,
                    rerunable_count: 0,
                },
            );
        }
        if counts.running > 0 {
            r.push(
                DatumStatusCount {
                    status: Status::Running,
                    count: counts.running as u64,
                    rerunable_count: 0,
                },
            );
        }
        if counts.done > 0 {
            r.push(
                DatumStatusCount {
                    status: Status::Done,
                    count: counts.done as u64,
                    rerunable_count: 0,
                },
            );
        }
        if counts.error > 0 {
            r.push(
                DatumStatusCount {
                    status: Status::Error,
                    count: counts.error as u64,
                    rerunable_count: counts.rerunable as u64,
                },
            );
        }
        if counts.canceled > 0 {
            r.push(
                DatumStatusCount {
                    status: Status::Canceled,
                    count: counts.canceled as u64,
                    rerunable_count: 0,
                },
            );
        }
        proof {
            reveal_with_fuel(Seq::filter, 7);
            assert(r@ =~= spec_status_counts(state@.datums, self.id));
        }
        r
    }

    /// Update the overall job status if there is nothing left to do: a
    /// running job whose datums are all settled becomes `error` if any datum
    /// failed for good, else `done`.
    pub fn update_status_if_done(&mut self, now: i64, state: &mut State) -> (r: Result<(), Error>)
        requires
            old(state)@.wf(),
            0 <= now,
        ensures
            final(state)@.wf(),
            match r {
                Ok(()) => has_job(old(state)@.jobs, old(self).id) && ({
                    let i = job_index_of(old(state)@.jobs, old(self).id);
                    let j1 = apply_status_decision(
                        old(state)@.jobs[i],
                        old(state)@.datums,
                        now as int,
                    );
                    &&& final(state)@ == (StateView {
                        jobs: old(state)@.jobs.update(i, j1),
                        ..old(state)@
                    })
                    &&& final(self)@ == j1
                }),
                Err(e) => e == Error::NotFound && !has_job(old(state)@.jobs, old(self).id)
                    && final(state)@ == old(state)@ && *final(self) == *old(self),
            },
    {
        let i = match state.find_job_index(self.id) {
            Some(i) => i,
            None => {
                return Err(Error::NotFound);
            },
        };
        proof {
            lemma_pin_job_index(state@.jobs, i as int, self.id);
        }
        // Take the row lock and reload the row, as the transaction would.
        *self = state.jobs[i].duplicate();
        if !(self.status == Status::Running) {
            proof {
                assert(old(state)@.jobs.update(i as int, old(state)@.jobs[i as int])
                    =~= old(state)@.jobs);
                assert(state@ == (StateView {
                    jobs: old(state)@.jobs.update(
                        i as int,
                        apply_status_decision(
                            old(state)@.jobs[i as int],
                            old(state)@.datums,
                            now as int,
                        ),
                    ),
                    ..old(state)@
                }));
            }
            return Ok(());
        }
        // Count the datums with various statuses and divide them into
        // classes.
        let counts = count_datum_statuses(self.id, state);
        let table_len = state.datums.len();
        proof {
            lemma_counts_by_status(state@.datums, self.id);
            lemma_class_counts_le_len(state@.datums, self.id);
            lemma_rerunable_le_error(state@.datums, self.id);
            assert(counts.ready + counts.running <= table_len);
            assert(counts.error - counts.rerunable + counts.canceled <= table_len);
        }
        let unfinished = counts.ready + counts.running;
        let rerunable = counts.rerunable;
        let failed = (counts.error - counts.rerunable) + counts.canceled;
        // Decide what to do, if anything.
        if unfinished > 0 || rerunable > 0 {
            proof {
                assert(old(state)@.jobs.update(i as int, old(state)@.jobs[i as int])
                    =~= old(state)@.jobs);
            }
            return Ok(());
        }
        let new_status = if failed > 0 {
            Status::Error
        } else {
            Status::Done
        };
        let updated = Job {
            id: self.id,
            created_at: self.created_at,
            updated_at: now,
            status: new_status,
            pipeline_spec: self.pipeline_spec.clone(),
            job_name: self.job_name.clone(),
            command: clone_string_vec(&self.command),
            egress_uri: self.egress_uri.clone(),
        };
        proof {
            assert(updated.command.deep_view() =~= self.command.deep_view());
        }
        *self = updated.duplicate();
        proof {
            lemma_jobs_wf_update(old(state)@.jobs, i as int, updated@);
        }
        state.jobs.set(i, updated);
        proof {
            assert(state@.jobs =~= old(state)@.jobs.update(i as int, self@));
        }
        Ok(())
    }

    /// Find any datum which has already been assigned to `pod_name`: the
    /// index of the datum this pod is recorded as running, if any.
    fn find_already_reserved_index(&self, pod_name: &str, state: &State) -> (r: Option<usize>)
        requires
            state@.wf(),
        ensures
            match r {
                Some(i) => i < state@.datums.len() && running_match(
                    state@.datums[i as int],
                    self.id,
                    pod_name@,
                ) && i as int == running_index_for_pod(state@.datums, self.id, pod_name@)
                    && has_running_for_pod(state@.datums, self.id, pod_name@),
                None => !has_running_for_pod(state@.datums, self.id, pod_name@),
            },
    {
        let mut i: usize = 0;
        while i < state.datums.len()
            invariant
                state@.wf(),
                0 <= i <= state@.datums.len(),
                forall|k: int|
                    0 <= k < i ==> !running_match(
                        #[trigger] state@.datums[k],
                        self.id,
                        pod_name@,
                    ),
            decreases state@.datums.len() - i,
        {
            let d = &state.datums[i];
            let pod_matches = match &d.pod_name {
                Some(p) => str_eq(p.as_str(), pod_name),
                None => false,
            };
            if d.job_id == self.id && d.status == Status::Running && pod_matches {
                proof {
                    assert(running_match(state@.datums[i as int], self.id, pod_name@));
                    lemma_pin_running_index(state@.datums, i as int, self.id, pod_name@);
                }
                return Some(i);
            }
            proof {
                assert(!running_match(state@.datums[i as int], self.id, pod_name@));
            }
            i += 1;
        }
        proof {
            assert(!has_running_for_pod(state@.datums, self.id, pod_name@)) by {
                if has_running_for_pod(state@.datums, self.id, pod_name@) {
                    let w = choose|k: int|
                        0 <= k < state@.datums.len() && running_match(
                            state@.datums[k],
                            self.id,
                            pod_name@,
                        );
                    assert(!running_match(state@.datums[w], self.id, pod_name@));
                }
            }
        }
        None
    }

    /// Look up the next datum available to process for this job, reserve it
    /// for the calling worker, and return it with its input files.
    ///
    /// The reservation is idempotent under lost responses: if the pod
    /// already holds a running datum of this job, that same datum is
    /// returned again and nothing changes. Otherwise the first ready datum
    /// is marked running on the caller's node and pod, with one more attempt
    /// on the books; if no datum is ready, `None`.
    pub fn reserve_next_datum(
        &self,
        node_name: &str,
        pod_name: &str,
        now: i64,
        state: &mut State,
    ) -> (r: Option<(Datum, Vec<InputFile>)>)
        requires
            old(state)@.wf(),
            0 <= now,
        ensures
            final(state)@.wf(),
            ({
                let datums = old(state)@.datums;
                if has_running_for_pod(datums, self.id, pod_name@) {
                    let i = running_index_for_pod(datums, self.id, pod_name@);
                    &&& final(state)@ == old(state)@
                    &&& r matches Some(p) && p.0@ == datums[i] && p.1@.map_values(
                        |f: InputFile| f@,
                    ) == input_files_of(old(state)@.input_files, datums[i].id)
                } else if first_ready(datums, self.id) == -1 {
                    &&& final(state)@ == old(state)@
                    &&& r is None
                } else {
                    let i = first_ready(datums, self.id);
                    let d1 = reserved(datums[i], node_name@, pod_name@, now as int);
                    &&& final(state)@ == (StateView {
                        datums: datums.update(i, d1),
                        ..old(state)@
                    })
                    &&& r matches Some(p) && p.0@ == d1 && p.1@.map_values(|f: InputFile| f@)
                        == input_files_of(old(state)@.input_files, d1.id)
                }
            }),
    {
        // Idempotent recovery: a reservation may already exist whose response
        // was lost between the service and the worker.
        if let Some(i) = self.find_already_reserved_index(pod_name, state) {
            let d = state.datums[i].duplicate();
            let files = d.input_files(state);
            return Some((d, files));
        }
        // Atomic selection: take the first ready datum of this job.
        let n = state.datums.len();
        let mut i: usize = 0;
        while i < n
            invariant
                0 <= i <= n == state@.datums.len(),
                state@ == old(state)@,
                old(state)@.wf(),
                0 <= now,
                !has_running_for_pod(state@.datums, self.id, pod_name@),
                first_ready(state@.datums, self.id) == first_ready_from(
                    state@.datums,
                    self.id,
                    i as int,
                ),
            decreases n - i,
        {
            let is_ready = {
                let d = &state.datums[i];
                d.job_id == self.id && d.status == Status::Ready
            };
            if is_ready {
                let ghost datums0 = state@.datums;
                proof {
                    assert(first_ready(datums0, self.id) == i as int);
                }
                let row = &state.datums[i];
                let updated = Datum {
                    id: row.id,
                    created_at: row.created_at,
                    updated_at: now,
                    status: Status::Running,
                    job_id: row.job_id,
                    error_message: clone_opt_string(&row.error_message),
                    node_name: Some(node_name.to_owned()),
                    pod_name: Some(pod_name.to_owned()),
                    backtrace: clone_opt_string(&row.backtrace),
                    output: clone_opt_string(&row.output),
                    attempted_run_count: row.attempted_run_count + 1,
                    maximum_allowed_run_count: row.maximum_allowed_run_count,
                };
                proof {
                    assert(updated@ == reserved(
                        datums0[i as int],
                        node_name@,
                        pod_name@,
                        now as int,
                    ));
                    assert forall|k: int|
                        0 <= k < datums0.len() && k != i implies !(
                    (#[trigger] datums0[k]).status == Status::Running && datums0[k].job_id
                        == updated@.job_id && datums0[k].pod_name == updated@.pod_name) by {
                        if datums0[k].status == Status::Running && datums0[k].job_id
                            == updated@.job_id && datums0[k].pod_name == updated@.pod_name {
                            assert(running_match(datums0[k], self.id, pod_name@));
                        }
                    }
                    lemma_datums_wf_update(datums0, i as int, updated@);
                }
                state.datums.set(i, updated);
                proof {
                    assert(state@.datums =~= datums0.update(
                        i as int,
                        reserved(datums0[i as int], node_name@, pod_name@, now as int),
                    ));
                }
                let d = state.datums[i].duplicate();
                let files = d.input_files(state);
                return Some((d, files));
            }
            i += 1;
        }
        None
    }

    /// Mark this job as having errored. This is not the typical way jobs
    /// reach `error`, which is `update_status_if_done`'s responsibility; the
    /// babysitter uses it for jobs whose cluster workload has vanished.
    pub fn mark_as_error(&mut self, now: i64, state: &mut State) -> (r: Result<(), Error>)
        requires
            old(state)@.wf(),
            0 <= now,
        ensures
            final(state)@.wf(),
            match r {
                Ok(()) => has_job(old(state)@.jobs, old(self).id) && ({
                    let i = job_index_of(old(state)@.jobs, old(self).id);
                    let j1 = (JobView {
                        status: Status::Error,
                        updated_at: now as int,
                        ..old(state)@.jobs[i]
                    });
                    &&& final(state)@ == (StateView {
                        jobs: old(state)@.jobs.update(i, j1),
                        ..old(state)@
                    })
                    &&& final(self)@ == j1
                }),
                Err(e) => e == Error::NotFound && !has_job(old(state)@.jobs, old(self).id)
                    && final(state)@ == old(state)@ && *final(self) == *old(self),
            },
    {
        let i = match state.find_job_index(self.id) {
            Some(i) => i,
            None => {
                return Err(Error::NotFound);
            },
        };
        proof {
            lemma_pin_job_index(state@.jobs, i as int, self.id);
        }
        let row = &state.jobs[i];
        let updated = Job {
            id: row.id,
            created_at: row.created_at,
            updated_at: now,
            status: Status::Error,
            pipeline_spec: row.pipeline_spec.clone(),
            job_name: row.job_name.clone(),
            command: clone_string_vec(&row.command),
            egress_uri: row.egress_uri.clone(),
        };
        proof {
            assert(updated.command.deep_view() =~= state.jobs[i as int].command.deep_view());
        }
        *self = updated.duplicate();
        proof {
            lemma_jobs_wf_update(old(state)@.jobs, i as int, updated@);
        }
        state.jobs.set(i, updated);
        proof {
            assert(state@.jobs =~= old(state)@.jobs.update(i as int, self@));
        }
        Ok(())
    }

    /// Generate a sample value for testing.
    pub fn factory(now: i64) -> (r: Job)
        ensures
            r@.created_at == now as int,
            r@.updated_at == now as int,
            r@.status == Status::Running,
            r@.pipeline_spec == "{}"@,
            r@.job_name == "my-job-123az"@,
            r@.command == seq!["echo"@, "hi"@],
            r@.egress_uri == "gs://example-bucket/output/"@,
    {
        let command = vec!["echo".to_owned(), "hi".to_owned()];
        let r = Job {
            id: fresh_uuid(),
            created_at: now,
            updated_at: now,
            status: Status::Running,
            pipeline_spec: "{}".to_owned(),
            job_name: "my-job-123az".to_owned(),
            command,
            egress_uri: "gs://example-bucket/output/".to_owned(),
        };
        proof {
            assert(r.command.deep_view() =~= seq!["echo"@, "hi"@]);
        }
        r
    }
}

/// The per-status counts of one job's datums, in status order, keeping only
/// the statuses that have datums; errored rows also carry the rerunable
/// count.
pub open spec fn spec_status_counts(datums: Seq<DatumView>, job_id: u128) -> Seq<DatumStatusCount> {
    seq![
        DatumStatusCount {
            status: Status::Ready,
            count: count_with_status(datums, job_id, Status::Ready) as u64,
            rerunable_count: 0,
        },
        DatumStatusCount {
            status: Status::Running,
            count: count_with_status(datums, job_id, Status::Running) as u64,
            rerunable_count: 0,
        },
        DatumStatusCount {
            status: Status::Done,
            count: count_with_status(datums, job_id, Status::Done) as u64,
            rerunable_count: 0,
        },
        DatumStatusCount {
            status: Status::Error,
            count: count_with_status(datums, job_id, Status::Error) as u64,
            rerunable_count: count_rerunable(datums, job_id) as u64,
        },
        DatumStatusCount {
            status: Status::Canceled,
            count: count_with_status(datums, job_id, Status::Canceled) as u64,
            rerunable_count: 0,
        },
    ].filter(|c: DatumStatusCount| c.count > 0)
}

/// The number of datums with a specified status, plus how many are
/// retryable.
#[derive(Clone, Copy, Debug, PartialEq, Eq, Structural)]
pub struct DatumStatusCount {
    /// The status we're counting.
    pub status: Status,
    /// The number of datums with this status.
    pub count: u64,
    /// The number of datums which could be re-run. This will be zero if
    /// `status` is not `Status::Error`.
    pub rerunable_count: u64,
}

/// Data required to create a new `Job`.
#[derive(Debug)]
pub struct NewJob {
    /// The unique ID for this job.
    pub id: u128,
    /// A copy of the original pipeline spec, as a JSON document.
    pub pipeline_spec: String,
    /// The Kubernetes `Job` name for this job.
    pub job_name: String,
    /// The command to run in the worker container.
    pub command: Vec<String>,
    /// The output bucket or bucket path.
    pub egress_uri: String,
}

/// The mathematical image of a `NewJob`.
pub struct NewJobView {
    /// The unique ID for this job.
    pub id: u128,
    /// The retained pipeline spec blob.
    pub pipeline_spec: Seq<char>,
    /// The Kubernetes job name.
    pub job_name: Seq<char>,
    /// The worker command.
    pub command: Seq<Seq<char>>,
    /// The output bucket or bucket path.
    pub egress_uri: Seq<char>,
}

impl View for NewJob {
    type V = NewJobView;

    open spec fn view(&self) -> NewJobView {
        NewJobView {
            id: self.id,
            pipeline_spec: self.pipeline_spec@,
            job_name: self.job_name@,
            command: self.command.deep_view(),
            egress_uri: self.egress_uri@,
        }
    }
}

/// The job row that an insert creates: jobs are born running.
pub open spec fn new_job_row(nj: NewJobView, now: int) -> JobView {
    JobView {
        id: nj.id,
        created_at: now,
        updated_at: now,
        status: Status::Running,
        pipeline_spec: nj.pipeline_spec,
        job_name: nj.job_name,
        command: nj.command,
        egress_uri: nj.egress_uri,
    }
}

impl NewJob {
    /// Insert a new job into the store. The id and the external job name
    /// must both be unused, as the store's uniqueness constraints demand.
    pub fn insert(&self, now: i64, state: &mut State) -> (r: Result<Job, Error>)
        requires
            old(state)@.wf(),
            0 <= now,
        ensures
            final(state)@.wf(),
            match r {
                Ok(j) => !has_job(old(state)@.jobs, self.id) && !has_job_named(
                    old(state)@.jobs,
                    self@.job_name,
                ) && j@ == new_job_row(self@, now as int) && final(state)@ == (StateView {
                    jobs: old(state)@.jobs.push(j@),
                    ..old(state)@
                }),
                Err(e) => final(state)@ == old(state)@ && ((e == Error::DuplicateId && has_job(
                    old(state)@.jobs,
                    self.id,
                )) || (e == Error::DuplicateJobName && !has_job(old(state)@.jobs, self.id)
                    && has_job_named(old(state)@.jobs, self@.job_name))),
            },
    {
        if state.find_job_index(self.id).is_some() {
            return Err(Error::DuplicateId);
        }
        let mut i: usize = 0;
        while i < state.jobs.len()
            invariant
                state@ == old(state)@,
                old(state)@.wf(),
                !has_job(state@.jobs, self.id),
                0 <= i <= state@.jobs.len(),
                forall|k: int| 0 <= k < i ==> (#[trigger] state@.jobs[k]).job_name != self@.job_name,
            decreases state@.jobs.len() - i,
        {
            if str_eq(state.jobs[i].job_name.as_str(), self.job_name.as_str()) {
                proof {
                    assert(state@.jobs[i as int].job_name == self@.job_name);
                    assert(has_job_named(state@.jobs, self@.job_name));
                }
                return Err(Error::DuplicateJobName);
            }
            i += 1;
        }
        proof {
            assert(!has_job_named(state@.jobs, self@.job_name)) by {
                if has_job_named(state@.jobs, self@.job_name) {
                    let w = choose|k: int|
                        0 <= k < state@.jobs.len() && state@.jobs[k].job_name == self@.job_name;
                    assert(state@.jobs[w].job_name != self@.job_name);
                }
            }
        }
        let row = Job {
            id: self.id,
            created_at: now,
            updated_at: now,
            status: Status::Running,
            pipeline_spec: self.pipeline_spec.clone(),
            job_name: self.job_name.clone(),
            command: clone_string_vec(&self.command),
            egress_uri: self.egress_uri.clone(),
        };
        proof {
            assert(row.command.deep_view() =~= self.command.deep_view());
            assert(row@ == new_job_row(self@, now as int));
            lemma_jobs_wf_push(old(state)@.jobs, row@);
        }
        let result = row.duplicate();
        state.jobs.push(row);
        proof {
            assert(state@.jobs =~= old(state)@.jobs.push(result@));
        }
        Ok(result)
    }
}

} // verus!
