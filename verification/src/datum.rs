//! Datums: the atomic units of work handed out to workers.

use vstd::prelude::*;

use crate::error::Error;
use crate::ids::fresh_uuid;
use crate::input_file::{InputFile, InputFileView};
use crate::job::Job;
use crate::state::{
    apply_status_decision, datum_index_of, has_datum, has_job, input_files_of, job_index_of,
    job_is_running, lemma_datums_wf_push, lemma_datums_wf_update, lemma_filter_take_step,
    lemma_pin_datum_index, lemma_pin_job_index, lemma_take_full, State, StateView,
};
use crate::status::Status;
use crate::text::{clone_opt_string, contains_string, spec_contains_string};

verus! {

/// A single chunk of work, consisting of one or more input files.
#[derive(Debug)]
pub struct Datum {
    /// The unique ID of this datum.
    pub id: u128,
    /// When this datum was created (microseconds since the epoch).
    pub created_at: i64,
    /// When this datum was last updated.
    pub updated_at: i64,
    /// The current status of this datum.
    pub status: Status,
    /// The job to which this datum belongs.
    pub job_id: u128,
    /// An error message associated with this datum, if any.
    pub error_message: Option<String>,
    /// The Kubernetes node on which this datum is running / was run.
    pub node_name: Option<String>,
    /// The Kubernetes pod which is running / ran this datum.
    pub pod_name: Option<String>,
    /// The backtrace associated with `error_message`, if any.
    pub backtrace: Option<String>,
    /// Combined stdout and stderr of the code which processed the datum.
    pub output: Option<String>,
    /// How many times we have tried to process this datum (counting attempts
    /// in progress).
    pub attempted_run_count: i32,
    /// How many times we are allowed to attempt to process this datum before
    /// failing for good.
    pub maximum_allowed_run_count: i32,
}

/// The mathematical image of a `Datum`.
pub struct DatumView {
    /// The unique ID of this datum.
    pub id: u128,
    /// When this datum was created.
    pub created_at: int,
    /// When this datum was last updated.
    pub updated_at: int,
    /// The current status of this datum.
    pub status: Status,
    /// The owning job.
    pub job_id: u128,
    /// An error message, if any.
    pub error_message: Option<Seq<char>>,
    /// The node recorded at reservation time.
    pub node_name: Option<Seq<char>>,
    /// The pod recorded at reservation time.
    pub pod_name: Option<Seq<char>>,
    /// The backtrace, if any.
    pub backtrace: Option<Seq<char>>,
    /// Captured stdout and stderr.
    pub output: Option<Seq<char>>,
    /// Attempts so far.
    pub attempted_run_count: int,
    /// The retry cap.
    pub maximum_allowed_run_count: int,
}

/// The view of an optional string.
pub open spec fn opt_view(o: Option<String>) -> Option<Seq<char>> {
    match o {
        Some(s) => Some(s@),
        None => None,
    }
}

impl View for Datum {
    type V = DatumView;

    open spec fn view(&self) -> DatumView {
        DatumView {
            id: self.id,
            created_at: self.created_at as int,
            updated_at: self.updated_at as int,
            status: self.status,
            job_id: self.job_id,
            error_message: opt_view(self.error_message),
            node_name: opt_view(self.node_name),
            pod_name: opt_view(self.pod_name),
            backtrace: opt_view(self.backtrace),
            output: opt_view(self.output),
            attempted_run_count: self.attempted_run_count as int,
            maximum_allowed_run_count: self.maximum_allowed_run_count as int,
        }
    }
}

impl DatumView {
    /// The record invariant that every stored datum satisfies.
    pub open spec fn wf(self) -> bool {
        &&& 0 <= self.created_at <= i64::MAX
        &&& 0 <= self.updated_at <= i64::MAX
        &&& 1 <= self.maximum_allowed_run_count <= i32::MAX
        &&& 0 <= self.attempted_run_count <= self.maximum_allowed_run_count
        &&& self.status == Status::Ready ==> self.attempted_run_count
            < self.maximum_allowed_run_count
        &&& self.status == Status::Running ==> self.node_name is Some && self.pod_name is Some
    }

    /// Is this datum re-runnable, assuming it belongs to a running job?
    pub open spec fn is_rerunable(self) -> bool {
        self.status == Status::Error && self.attempted_run_count < self.maximum_allowed_run_count
    }
}

impl Datum {
    /// Is this datum re-runnable, assuming it belongs to a running job?
    pub fn is_rerunable(&self) -> (r: bool)
        ensures
            r == self@.is_rerunable(),
    {
        self.status == Status::Error && self.attempted_run_count < self.maximum_allowed_run_count
    }

    /// An exact copy of this datum.
    pub fn duplicate(&self) -> (r: Datum)
        ensures
            r@ == self@,
    {
        Datum {
            id: self.id,
            created_at: self.created_at,
            updated_at: self.updated_at,
            status: self.status,
            job_id: self.job_id,
            error_message: clone_opt_string(&self.error_message),
            node_name: clone_opt_string(&self.node_name),
            pod_name: clone_opt_string(&self.pod_name),
            backtrace: clone_opt_string(&self.backtrace),
            output: clone_opt_string(&self.output),
            attempted_run_count: self.attempted_run_count,
            maximum_allowed_run_count: self.maximum_allowed_run_count,
        }
    }
}

/// A datum row after a successful run was recorded.
pub open spec fn marked_done(d: DatumView, output: Seq<char>, now: int) -> DatumView {
    DatumView { status: Status::Done, updated_at: now, output: Some(output), ..d }
}

/// A datum row after a failed run was recorded.
pub open spec fn marked_error(
    d: DatumView,
    output: Seq<char>,
    error_message: Seq<char>,
    backtrace: Seq<char>,
    now: int,
) -> DatumView {
    DatumView {
        status: Status::Error,
        updated_at: now,
        output: Some(output),
        error_message: Some(error_message),
        backtrace: Some(backtrace),
        ..d
    }
}

/// A datum row after it was re-queued for another attempt. The attempt
/// counter is not incremented here: that happens at the next reservation.
pub open spec fn requeued(d: DatumView, now: int) -> DatumView {
    DatumView { status: Status::Ready, updated_at: now, ..d }
}

/// A datum row after it was reserved by a worker: running on the given node
/// and pod, with one more attempt on the books.
pub open spec fn reserved(d: DatumView, node_name: Seq<char>, pod_name: Seq<char>, now: int) -> DatumView {
    DatumView {
        status: Status::Running,
        node_name: Some(node_name),
        pod_name: Some(pod_name),
        attempted_run_count: d.attempted_run_count + 1,
        updated_at: now,
        ..d
    }
}

impl Datum {
    /// Find a datum by ID.
    pub fn find(id: u128, state: &State) -> (r: Result<Datum, Error>)
        requires
            state@.wf(),
        ensures
            match r {
                Ok(d) => has_datum(state@.datums, id) && d@ == state@.datums[datum_index_of(
                    state@.datums,
                    id,
                )],
                Err(e) => e == Error::NotFound && !has_datum(state@.datums, id),
            },
    {
        match state.find_datum_index(id) {
            Some(i) => {
                proof {
                    lemma_pin_datum_index(state@.datums, i as int, id);
                }
                Ok(state.datums[i].duplicate())
            },
            None => Err(Error::NotFound),
        }
    }

    /// Mark this datum as having been successfully processed, recording the
    /// captured output of the commands that ran.
    pub fn mark_as_done(&mut self, output: &str, now: i64, state: &mut State) -> (r: Result<
        (),
        Error,
    >)
        requires
            old(state)@.wf(),
            0 <= now,
        ensures
            final(state)@.wf(),
            match r {
                Ok(()) => has_datum(old(state)@.datums, old(self).id) && ({
                    let i = datum_index_of(old(state)@.datums, old(self).id);
                    let d1 = marked_done(old(state)@.datums[i], output@, now as int);
                    &&& final(state)@ == (StateView {
                        datums: old(state)@.datums.update(i, d1),
                        ..old(state)@
                    })
                    &&& final(self)@ == d1
                }),
                Err(e) => e == Error::NotFound && !has_datum(old(state)@.datums, old(self).id)
                    && final(state)@ == old(state)@ && *final(self) == *old(self),
            },
    {
        match state.find_datum_index(self.id) {
            None => Err(Error::NotFound),
            Some(i) => {
                proof {
                    lemma_pin_datum_index(state@.datums, i as int, self.id);
                }
                let row = &state.datums[i];
                let updated = Datum {
                    id: row.id,
                    created_at: row.created_at,
                    updated_at: now,
                    status: Status::Done,
                    job_id: row.job_id,
                    error_message: clone_opt_string(&row.error_message),
                    node_name: clone_opt_string(&row.node_name),
                    pod_name: clone_opt_string(&row.pod_name),
                    backtrace: clone_opt_string(&row.backtrace),
                    output: Some(output.to_owned()),
                    attempted_run_count: row.attempted_run_count,
                    maximum_allowed_run_count: row.maximum_allowed_run_count,
                };
                *self = updated.duplicate();
                proof {
                    lemma_datums_wf_update(old(state)@.datums, i as int, updated@);
                }
                state.datums.set(i, updated);
                proof {
                    assert(state@.datums =~= old(state)@.datums.update(i as int, self@));
                }
                Ok(())
            },
        }
    }

    /// Mark this datum as having been unsuccessfully processed, recording the
    /// captured output and the error diagnostics.
    pub fn mark_as_error(
        &mut self,
        output: &str,
        error_message: &str,
        backtrace: &str,
        now: i64,
        state: &mut State,
    ) -> (r: Result<(), Error>)
        requires
            old(state)@.wf(),
            0 <= now,
        ensures
            final(state)@.wf(),
            match r {
                Ok(()) => has_datum(old(state)@.datums, old(self).id) && ({
                    let i = datum_index_of(old(state)@.datums, old(self).id);
                    let d1 = marked_error(
                        old(state)@.datums[i],
                        output@,
                        error_message@,
                        backtrace@,
                        now as int,
                    );
                    &&& final(state)@ == (StateView {
                        datums: old(state)@.datums.update(i, d1),
                        ..old(state)@
                    })
                    &&& final(self)@ == d1
                }),
                Err(e) => e == Error::NotFound && !has_datum(old(state)@.datums, old(self).id)
                    && final(state)@ == old(state)@ && *final(self) == *old(self),
            },
    {
        match state.find_datum_index(self.id) {
            None => Err(Error::NotFound),
            Some(i) => {
                proof {
                    lemma_pin_datum_index(state@.datums, i as int, self.id);
                }
                let row = &state.datums[i];
                let updated = Datum {
                    id: row.id,
                    created_at: row.created_at,
                    updated_at: now,
                    status: Status::Error,
                    job_id: row.job_id,
                    error_message: Some(error_message.to_owned()),
                    node_name: clone_opt_string(&row.node_name),
                    pod_name: clone_opt_string(&row.pod_name),
                    backtrace: Some(backtrace.to_owned()),
                    output: Some(output.to_owned()),
                    attempted_run_count: row.attempted_run_count,
                    maximum_allowed_run_count: row.maximum_allowed_run_count,
                };
                *self = updated.duplicate();
                proof {
                    lemma_datums_wf_update(old(state)@.datums, i as int, updated@);
                }
                state.datums.set(i, updated);
                proof {
                    assert(state@.datums =~= old(state)@.datums.update(i as int, self@));
                }
                Ok(())
            },
        }
    }

    /// Mark this datum as eligible to be re-run another time. The caller
    /// holds the row and has re-checked eligibility, as the babysitter does
    /// under its row lock.
    pub fn mark_as_eligible_for_rerun(&mut self, now: i64, state: &mut State)
        requires
            old(state)@.wf(),
            0 <= now,
            has_datum(old(state)@.datums, old(self).id),
            old(state)@.datums[datum_index_of(old(state)@.datums, old(self).id)].is_rerunable(),
        ensures
            final(state)@.wf(),
            ({
                let i = datum_index_of(old(state)@.datums, old(self).id);
                let d1 = requeued(old(state)@.datums[i], now as int);
                &&& final(state)@ == (StateView {
                    datums: old(state)@.datums.update(i, d1),
                    ..old(state)@
                })
                &&& final(self)@ == d1
            }),
    {
        let i = match state.find_datum_index(self.id) {
            Some(i) => i,
            None => {
                proof {
                    assert(false);
                }
                0
            },
        };
        proof {
            lemma_pin_datum_index(state@.datums, i as int, self.id);
        }
        let row = &state.datums[i];
        let updated = Datum {
            id: row.id,
            created_at: row.created_at,
            updated_at: now,
            status: Status::Ready,
            job_id: row.job_id,
            error_message: clone_opt_string(&row.error_message),
            node_name: clone_opt_string(&row.node_name),
            pod_name: clone_opt_string(&row.pod_name),
            backtrace: clone_opt_string(&row.backtrace),
            output: clone_opt_string(&row.output),
            attempted_run_count: row.attempted_run_count,
            maximum_allowed_run_count: row.maximum_allowed_run_count,
        };
        *self = updated.duplicate();
        proof {
            lemma_datums_wf_update(old(state)@.datums, i as int, updated@);
        }
        state.datums.set(i, updated);
        proof {
            assert(state@.datums =~= old(state)@.datums.update(i as int, self@));
        }
    }

    /// Get the input files for this datum, in insertion order.
    pub fn input_files(&self, state: &State) -> (r: Vec<InputFile>)
        ensures
            r@.map_values(|f: InputFile| f@) == input_files_of(state@.input_files, self.id),
    {
        let mut r: Vec<InputFile> = Vec::new();
        let mut i: usize = 0;
        proof {
            reveal(Seq::filter);
        }
        while i < state.input_files.len()
            invariant
                0 <= i <= state.input_files@.len(),
                r@.map_values(|f: InputFile| f@) == input_files_of(
                    state@.input_files.take(i as int),
                    self.id,
                ),
            decreases state.input_files@.len() - i,
        {
            proof {
                lemma_filter_take_step(
                    state@.input_files,
                    |f: InputFileView| f.datum_id == self.id,
                    i as int,
                );
            }
            let f = &state.input_files[i];
            if f.datum_id == self.id {
                let ghost prior = r@;
                r.push(f.duplicate());
                proof {
                    assert(r@.map_values(|f: InputFile| f@) =~= prior.map_values(
                        |f: InputFile| f@,
                    ).push(state@.input_files[i as int]));
                }
            }
            i += 1;
        }
        proof {
            lemma_take_full(state@.input_files);
        }
        r
    }

    /// Generate a sample value for testing.
    pub fn factory(job: &Job, now: i64) -> (r: Datum)
        ensures
            r@.created_at == now as int,
            r@.updated_at == now as int,
            r@.status == Status::Running,
            r@.job_id == job@.id,
            r@.error_message is None,
            r@.node_name is None,
            r@.pod_name is None,
            r@.backtrace is None,
            r@.output is None,
            r@.attempted_run_count == 0,
            r@.maximum_allowed_run_count == 1,
    {
        Datum {
            id: fresh_uuid(),
            created_at: now,
            updated_at: now,
            status: Status::Running,
            job_id: job.id,
            error_message: None,
            node_name: None,
            pod_name: None,
            backtrace: None,
            output: None,
            attempted_run_count: 0,
            maximum_allowed_run_count: 1,
        }
    }
}

/// A datum that claims to be running, owned by a running job, whose pod no
/// longer exists (or was never recorded).
pub open spec fn is_zombie(s: StateView, d: DatumView, pod_names: Seq<Seq<char>>) -> bool {
    &&& d.status == Status::Running
    &&& job_is_running(s.jobs, d.job_id)
    &&& match d.pod_name {
        Some(p) => !pod_names.contains(p),
        None => true,
    }
}

impl Datum {
    /// Does the owning job of this row exist and have status running?
    fn job_running(job_id: u128, state: &State) -> (r: bool)
        requires
            state@.wf(),
        ensures
            r == job_is_running(state@.jobs, job_id),
    {
        match state.find_job_index(job_id) {
            Some(i) => {
                proof {
                    lemma_pin_job_index(state@.jobs, i as int, job_id);
                }
                state.jobs[i].status == Status::Running
            },
            None => false,
        }
    }

    /// Find all datums with the specified status that belong to a running
    /// job, in table order.
    pub fn active_with_status(status: Status, state: &State) -> (r: Vec<Datum>)
        requires
            state@.wf(),
        ensures
            r@.map_values(|d: Datum| d@) == state@.datums.filter(
                |d: DatumView| d.status == status && job_is_running(state@.jobs, d.job_id),
            ),
    {
        let ghost datums = state@.datums;
        let ghost pred = |d: DatumView| d.status == status && job_is_running(state@.jobs, d.job_id);
        let mut r: Vec<Datum> = Vec::new();
        let mut i: usize = 0;
        proof {
            reveal(Seq::filter);
        }
        while i < state.datums.len()
            invariant
                state@.wf(),
                0 <= i <= datums.len(),
                datums == state@.datums,
                pred == (|d: DatumView| d.status == status && job_is_running(
                    state@.jobs,
                    d.job_id,
                )),
                r@.map_values(|d: Datum| d@) == datums.take(i as int).filter(pred),
            decreases datums.len() - i,
        {
            proof {
                lemma_filter_take_step(datums, pred, i as int);
            }
            let d = &state.datums[i];
            if d.status == status && Self::job_running(d.job_id, state) {
                let ghost prior = r@;
                r.push(d.duplicate());
                proof {
                    assert(r@.map_values(|d: Datum| d@) =~= prior.map_values(|d: Datum| d@).push(
                        datums[i as int],
                    ));
                }
            }
            i += 1;
        }
        proof {
            lemma_take_full(datums);
        }
        r
    }

    /// Find datums which claim to be running, but whose pod no longer
    /// exists among the given running pod names.
    pub fn zombies(running_pod_names: &Vec<String>, state: &State) -> (r: Vec<Datum>)
        requires
            state@.wf(),
        ensures
            r@.map_values(|d: Datum| d@) == state@.datums.filter(
                |d: DatumView| is_zombie(state@, d, running_pod_names.deep_view()),
            ),
    {
        let ghost datums = state@.datums;
        let ghost pods = running_pod_names.deep_view();
        let ghost pred = |d: DatumView| is_zombie(state@, d, pods);
        let mut r: Vec<Datum> = Vec::new();
        let mut i: usize = 0;
        proof {
            reveal(Seq::filter);
        }
        while i < state.datums.len()
            invariant
                state@.wf(),
                0 <= i <= datums.len(),
                datums == state@.datums,
                pods == running_pod_names.deep_view(),
                pred == (|d: DatumView| is_zombie(state@, d, pods)),
                r@.map_values(|d: Datum| d@) == datums.take(i as int).filter(pred),
            decreases datums.len() - i,
        {
            proof {
                lemma_filter_take_step(datums, pred, i as int);
            }
            let d = &state.datums[i];
            let pod_vanished = match &d.pod_name {
                Some(p) => {
                    let present = contains_string(running_pod_names, p);
                    proof {
                        assert(present == pods.contains(p@)) by {
                            if spec_contains_string(running_pod_names@, p@) {
                                let w = choose|w: int|
                                    0 <= w < running_pod_names@.len()
                                        && running_pod_names@[w]@ == p@;
                                assert(pods[w] == p@);
                            }
                            if pods.contains(p@) {
                                let w = choose|w: int| 0 <= w < pods.len() && pods[w] == p@;
                                assert(running_pod_names@[w]@ == p@);
                            }
                        }
                    }
                    !present
                },
                None => true,
            };
            if d.status == Status::Running && pod_vanished && Self::job_running(d.job_id, state) {
                let ghost prior = r@;
                r.push(d.duplicate());
                proof {
                    assert(is_zombie(state@, datums[i as int], pods));
                    assert(r@.map_values(|d: Datum| d@) =~= prior.map_values(|d: Datum| d@).push(
                        datums[i as int],
                    ));
                }
            } else {
                proof {
                    assert(!is_zombie(state@, datums[i as int], pods));
                }
            }
            i += 1;
        }
        proof {
            lemma_take_full(datums);
        }
        r
    }

    /// Find all datums which have errored but can be re-run, belonging to
    /// running jobs, in table order.
    pub fn rerunable(state: &State) -> (r: Vec<Datum>)
        requires
            state@.wf(),
        ensures
            r@.map_values(|d: Datum| d@) == state@.datums.filter(
                |d: DatumView| d.is_rerunable() && job_is_running(state@.jobs, d.job_id),
            ),
    {
        let ghost datums = state@.datums;
        let ghost pred = |d: DatumView| d.is_rerunable() && job_is_running(state@.jobs, d.job_id);
        let mut r: Vec<Datum> = Vec::new();
        let mut i: usize = 0;
        proof {
            reveal(Seq::filter);
        }
        while i < state.datums.len()
            invariant
                state@.wf(),
                0 <= i <= datums.len(),
                datums == state@.datums,
                pred == (|d: DatumView| d.is_rerunable() && job_is_running(
                    state@.jobs,
                    d.job_id,
                )),
                r@.map_values(|d: Datum| d@) == datums.take(i as int).filter(pred),
            decreases datums.len() - i,
        {
            proof {
                lemma_filter_take_step(datums, pred, i as int);
            }
            let d = &state.datums[i];
            if d.is_rerunable() && Self::job_running(d.job_id, state) {
                let ghost prior = r@;
                r.push(d.duplicate());
                proof {
                    assert(r@.map_values(|d: Datum| d@) =~= prior.map_values(|d: Datum| d@).push(
                        datums[i as int],
                    ));
                }
            }
            i += 1;
        }
        proof {
            lemma_take_full(datums);
        }
        r
    }

    /// Update the status of this datum's job, if that job has finished.
    pub fn update_job_status_if_done(&self, now: i64, state: &mut State) -> (r: Result<(), Error>)
        requires
            old(state)@.wf(),
            0 <= now,
        ensures
            final(state)@.wf(),
            match r {
                Ok(()) => has_job(old(state)@.jobs, self.job_id) && ({
                    let i = job_index_of(old(state)@.jobs, self.job_id);
                    let j1 = apply_status_decision(
                        old(state)@.jobs[i],
                        old(state)@.datums,
                        now as int,
                    );
                    final(state)@ == (StateView {
                        jobs: old(state)@.jobs.update(i, j1),
                        ..old(state)@
                    })
                }),
                Err(e) => e == Error::NotFound && !has_job(old(state)@.jobs, self.job_id)
                    && final(state)@ == old(state)@,
            },
    {
        let mut job = match Job::find(self.job_id, state) {
            Ok(job) => job,
            Err(e) => {
                return Err(e);
            },
        };
        match job.update_status_if_done(now, state) {
            Ok(()) => Ok(()),
            Err(e) => {
                proof {
                    assert(false);
                }
                Err(e)
            },
        }
    }
}

/// The datum row that a bulk insert creates for one `NewDatum`: ready to be
/// reserved, with no attempts on the books.
pub open spec fn new_datum_row(nd: NewDatum, now: int) -> DatumView {
    DatumView {
        id: nd.id,
        created_at: now,
        updated_at: now,
        status: Status::Ready,
        job_id: nd.job_id,
        error_message: None,
        node_name: None,
        pod_name: None,
        backtrace: None,
        output: None,
        attempted_run_count: 0,
        maximum_allowed_run_count: nd.maximum_allowed_run_count as int,
    }
}

/// The ids of the new datums are distinct and none is already in use.
pub open spec fn new_datum_ids_fresh(existing: Seq<DatumView>, news: Seq<NewDatum>) -> bool {
    &&& forall|k: int| 0 <= k < news.len() ==> !has_datum(existing, (#[trigger] news[k]).id)
    &&& forall|k: int, j: int|
        #![trigger news[k], news[j]]
        0 <= k < news.len() && 0 <= j < news.len() && news[k].id == news[j].id ==> k == j
}

/// Data required to create a new `Datum`.
#[derive(Debug)]
pub struct NewDatum {
    /// The unique ID of this datum. Generated by the caller and supplied at
    /// creation time so that it can immediately be used for the associated
    /// input files, allowing one bulk insert.
    pub id: u128,
    /// The job to which this datum belongs.
    pub job_id: u128,
    /// How many times are we allowed to attempt to process this datum before
    /// failing for good?
    pub maximum_allowed_run_count: i32,
}

impl NewDatum {
    /// Insert new datums into the store in one transaction: all of them, with
    /// their caller-supplied ids, or none if an id is already taken.
    pub fn insert_all(datums: &Vec<NewDatum>, now: i64, state: &mut State) -> (r: Result<
        (),
        Error,
    >)
        requires
            old(state)@.wf(),
            0 <= now,
            forall|k: int|
                0 <= k < datums@.len() ==> (#[trigger] datums@[k]).maximum_allowed_run_count >= 1,
        ensures
            final(state)@.wf(),
            match r {
                Ok(()) => new_datum_ids_fresh(old(state)@.datums, datums@) && final(state)@
                    == (StateView {
                    datums: old(state)@.datums + datums@.map_values(
                        |nd: NewDatum| new_datum_row(nd, now as int),
                    ),
                    ..old(state)@
                }),
                Err(e) => e == Error::DuplicateId && !new_datum_ids_fresh(
                    old(state)@.datums,
                    datums@,
                ) && final(state)@ == old(state)@,
            },
    {
        let ghost existing = state@.datums;
        let ghost news = datums@;
        // Check every id before touching the store, so that a conflict leaves
        // the state unchanged, as an aborted transaction would.
        let mut k: usize = 0;
        while k < datums.len()
            invariant
                0 <= k <= news.len(),
                news == datums@,
                existing == state@.datums,
                state@ == old(state)@,
                old(state)@.wf(),
                forall|j: int| 0 <= j < k ==> !has_datum(existing, (#[trigger] news[j]).id),
                forall|j: int, l: int|
                    #![trigger news[j], news[l]]
                    0 <= j < k && 0 <= l < k && news[j].id == news[l].id ==> j == l,
            decreases news.len() - k,
        {
            if state.find_datum_index(datums[k].id).is_some() {
                proof {
                    assert(!new_datum_ids_fresh(existing, news)) by {
                        if new_datum_ids_fresh(existing, news) {
                            assert(!has_datum(existing, news[k as int].id));
                        }
                    }
                }
                return Err(Error::DuplicateId);
            }
            let mut j: usize = 0;
            while j < k
                invariant
                    0 <= j <= k < news.len(),
                    news == datums@,
                    state@ == old(state)@,
                    old(state)@.wf(),
                    forall|l: int| 0 <= l < j ==> (#[trigger] news[l]).id != news[k as int].id,
                decreases k - j,
            {
                if datums[j].id == datums[k].id {
                    proof {
                        assert(!new_datum_ids_fresh(existing, news)) by {
                            if new_datum_ids_fresh(existing, news) {
                                assert(news[j as int].id == news[k as int].id ==> j == k);
                            }
                        }
                    }
                    return Err(Error::DuplicateId);
                }
                j += 1;
            }
            k += 1;
        }
        proof {
            assert(new_datum_ids_fresh(existing, news));
        }
        // Append the rows.
        let mut k: usize = 0;
        while k < datums.len()
            invariant
                0 <= k <= news.len(),
                news == datums@,
                forall|j: int|
                    0 <= j < news.len() ==> (#[trigger] news[j]).maximum_allowed_run_count >= 1,
                0 <= now,
                new_datum_ids_fresh(existing, news),
                state@.datums == existing + news.take(k as int).map_values(
                    |nd: NewDatum| new_datum_row(nd, now as int),
                ),
                state@.jobs == old(state)@.jobs,
                state@.input_files == old(state)@.input_files,
                state@.output_files == old(state)@.output_files,
                old(state)@.wf(),
                existing == old(state)@.datums,
                state@.datums_wf(),
            decreases news.len() - k,
        {
            let nd = &datums[k];
            let row = Datum {
                id: nd.id,
                created_at: now,
                updated_at: now,
                status: Status::Ready,
                job_id: nd.job_id,
                error_message: None,
                node_name: None,
                pod_name: None,
                backtrace: None,
                output: None,
                attempted_run_count: 0,
                maximum_allowed_run_count: nd.maximum_allowed_run_count,
            };
            proof {
                assert(row@ == new_datum_row(news[k as int], now as int));
                assert(!has_datum(state@.datums, row@.id)) by {
                    if has_datum(state@.datums, row@.id) {
                        let w = choose|i: int|
                            0 <= i < state@.datums.len() && state@.datums[i].id == row@.id;
                        if w < existing.len() {
                            assert(existing[w].id == row@.id);
                            assert(!has_datum(existing, news[k as int].id));
                        } else {
                            let j = w - existing.len();
                            assert(state@.datums[w] == new_datum_row(
                                news.take(k as int)[j],
                                now as int,
                            ));
                            assert(news[j].id == news[k as int].id);
                        }
                    }
                }
                lemma_datums_wf_push(state@.datums, row@);
            }
            let ghost before = state@.datums;
            state.datums.push(row);
            proof {
                assert(state@.datums =~= before.push(row@));
                assert(state@.datums =~= existing + news.take(k + 1).map_values(
                    |nd: NewDatum| new_datum_row(nd, now as int),
                ));
            }
            k += 1;
        }
        proof {
            assert(news.take(news.len() as int) =~= news);
            assert(state@.datums =~= existing + news.map_values(
                |nd: NewDatum| new_datum_row(nd, now as int),
            ));
        }
        Ok(())
    }
}

} // verus!
