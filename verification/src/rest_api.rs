//! The request and response types of the service's API, and the handler
//! logic behind each endpoint. The HTTP transport, authentication and JSON
//! encoding live outside the verified core.

use vstd::prelude::*;

use crate::datum::{marked_done, marked_error, reserved, Datum};
use crate::error::Error;
use crate::input_file::InputFile;
use crate::job::Job;
use crate::output_file::{patch_output_by_ids, NewOutputFile, OutputFile};
use crate::state::{
    apply_status_decision, datum_index_of, first_ready, has_datum, has_job, has_running_for_pod,
    input_files_of, job_index_of, running_index_for_pod, State, StateView,
};
use crate::status::Status;

verus! {

/// Request the reservation of a datum.
#[derive(Debug)]
pub struct DatumReservationRequest {
    /// The Kubernetes node name which will process this datum.
    pub node_name: String,
    /// The Kubernetes pod name which will process this datum.
    pub pod_name: String,
}

/// Information about a reserved datum.
#[derive(Debug)]
pub struct DatumReservationResponse {
    /// The reserved datum to process.
    pub datum: Datum,
    /// The input files associated with this datum.
    pub input_files: Vec<InputFile>,
}

/// Information about a datum that a worker can report back.
#[derive(Debug)]
pub struct DatumPatch {
    /// The new status for the datum. Must be either `Status::Done` or
    /// `Status::Error`.
    pub status: Status,
    /// The captured output of processing the datum.
    pub output: String,
    /// If and only if `status` is `Status::Error`, the error message.
    pub error_message: Option<String>,
    /// If and only if `status` is `Status::Error`, the error backtrace.
    pub backtrace: Option<String>,
}

/// Information about an output file that a worker can update.
#[derive(Clone, Copy, Debug, PartialEq, Eq, Structural)]
pub struct OutputFilePatch {
    /// The ID of the output file to update.
    pub id: u128,
    /// The status of the output file. Must be either `Status::Done` or
    /// `Status::Error`.
    pub status: Status,
}

/// A datum patch is well-formed when it records success with no diagnostics,
/// or failure with both.
pub open spec fn datum_patch_valid(p: &DatumPatch) -> bool {
    ||| (p.status == Status::Done && p.error_message is None && p.backtrace is None)
    ||| (p.status == Status::Error && p.error_message is Some && p.backtrace is Some)
}

/// Reserve the next available datum of a job for a worker, returning it with
/// its input files, or nothing when no datum is ready.
pub fn job_reserve_next_datum(
    job_id: u128,
    request: &DatumReservationRequest,
    now: i64,
    state: &mut State,
) -> (r: Result<Option<DatumReservationResponse>, Error>)
    requires
        old(state)@.wf(),
        0 <= now,
    ensures
        final(state)@.wf(),
        match r {
            Ok(resv) => has_job(old(state)@.jobs, job_id) && ({
                let datums = old(state)@.datums;
                let pod = request.pod_name@;
                if has_running_for_pod(datums, job_id, pod) {
                    let i = running_index_for_pod(datums, job_id, pod);
                    &&& final(state)@ == old(state)@
                    &&& resv matches Some(resp) && resp.datum@ == datums[i]
                        && resp.input_files@.map_values(|f: InputFile| f@) == input_files_of(
                        old(state)@.input_files,
                        datums[i].id,
                    )
                } else if first_ready(datums, job_id) == -1 {
                    final(state)@ == old(state)@ && resv is None
                } else {
                    let i = first_ready(datums, job_id);
                    let d1 = reserved(datums[i], request.node_name@, pod, now as int);
                    &&& final(state)@ == (StateView {
                        datums: datums.update(i, d1),
                        ..old(state)@
                    })
                    &&& resv matches Some(resp) && resp.datum@ == d1
                        && resp.input_files@.map_values(|f: InputFile| f@) == input_files_of(
                        old(state)@.input_files,
                        d1.id,
                    )
                }
            }),
            Err(e) => e == Error::NotFound && !has_job(old(state)@.jobs, job_id) && final(state)@
                == old(state)@,
        },
{
    let job = match Job::find(job_id, state) {
        Ok(job) => job,
        Err(e) => {
            return Err(e);
        },
    };
    match job.reserve_next_datum(
        request.node_name.as_str(),
        request.pod_name.as_str(),
        now,
        state,
    ) {
        Some((datum, input_files)) => Ok(Some(DatumReservationResponse { datum, input_files })),
        None => Ok(None),
    }
}

/// Apply a worker's report to a datum: record success or failure, then
/// update the owning job's status if nothing is left to do.
pub fn patch_datum(datum_id: u128, patch: &DatumPatch, now: i64, state: &mut State) -> (r: Result<
    Datum,
    Error,
>)
    requires
        old(state)@.wf(),
        0 <= now,
    ensures
        final(state)@.wf(),
        match r {
            Ok(d) => datum_patch_valid(patch) && has_datum(old(state)@.datums, datum_id) && ({
                let i = datum_index_of(old(state)@.datums, datum_id);
                let d1 = if patch.status == Status::Done {
                    marked_done(old(state)@.datums[i], patch.output@, now as int)
                } else {
                    marked_error(
                        old(state)@.datums[i],
                        patch.output@,
                        patch.error_message->Some_0@,
                        patch.backtrace->Some_0@,
                        now as int,
                    )
                };
                let datums1 = old(state)@.datums.update(i, d1);
                &&& d@ == d1
                &&& has_job(old(state)@.jobs, d1.job_id)
                &&& ({
                    let ji = job_index_of(old(state)@.jobs, d1.job_id);
                    final(state)@ == (StateView {
                        datums: datums1,
                        jobs: old(state)@.jobs.update(
                            ji,
                            apply_status_decision(old(state)@.jobs[ji], datums1, now as int),
                        ),
                        ..old(state)@
                    })
                })
            }),
            Err(e) => {
                ||| (e == Error::InvalidDatumPatch && !datum_patch_valid(patch) && final(state)@
                    == old(state)@)
                ||| (e == Error::NotFound && datum_patch_valid(patch) && !has_datum(
                    old(state)@.datums,
                    datum_id,
                ) && final(state)@ == old(state)@)
                ||| (e == Error::NotFound && datum_patch_valid(patch) && has_datum(
                    old(state)@.datums,
                    datum_id,
                ) && !has_job(
                    old(state)@.jobs,
                    old(state)@.datums[datum_index_of(old(state)@.datums, datum_id)].job_id,
                ) && ({
                    let i = datum_index_of(old(state)@.datums, datum_id);
                    let d1 = if patch.status == Status::Done {
                        marked_done(old(state)@.datums[i], patch.output@, now as int)
                    } else {
                        marked_error(
                            old(state)@.datums[i],
                            patch.output@,
                            patch.error_message->Some_0@,
                            patch.backtrace->Some_0@,
                            now as int,
                        )
                    };
                    final(state)@ == (StateView {
                        datums: old(state)@.datums.update(i, d1),
                        ..old(state)@
                    })
                }))
            },
        },
{
    let mut datum = match Datum::find(datum_id, state) {
        Ok(d) => d,
        Err(e) => {
            // Validation comes first: an ill-formed patch is rejected even
            // for a datum that does not exist.
            match (&patch.status, &patch.error_message, &patch.backtrace) {
                (Status::Done, None, None) => {
                    return Err(e);
                },
                (Status::Error, Some(_), Some(_)) => {
                    return Err(e);
                },
                _ => {
                    return Err(Error::InvalidDatumPatch);
                },
            }
        },
    };
    // Only a few very specific kinds of patches are supported.
    match (&patch.status, &patch.error_message, &patch.backtrace) {
        (Status::Done, None, None) => {
            match datum.mark_as_done(patch.output.as_str(), now, state) {
                Ok(()) => {},
                Err(_) => {
                    proof {
                        assert(false);
                    }
                },
            }
        },
        (Status::Error, Some(error_message), Some(backtrace)) => {
            match datum.mark_as_error(
                patch.output.as_str(),
                error_message.as_str(),
                backtrace.as_str(),
                now,
                state,
            ) {
                Ok(()) => {},
                Err(_) => {
                    proof {
                        assert(false);
                    }
                },
            }
        },
        _ => {
            return Err(Error::InvalidDatumPatch);
        },
    }
    // If there are no more datums, mark the job as finished (either done or
    // error).
    match datum.update_job_status_if_done(now, state) {
        Ok(()) => {},
        Err(e) => {
            return Err(e);
        },
    }
    Ok(datum)
}

/// Create a batch of output files, with status `running`, before their
/// uploads begin.
pub fn create_output_files(
    new_output_files: &Vec<NewOutputFile>,
    now: i64,
    state: &mut State,
) -> (r: Result<Vec<OutputFile>, Error>)
    requires
        old(state)@.wf(),
        0 <= now,
    ensures
        final(state)@.wf(),
        match r {
            Ok(created) => {
                &&& created@.len() == new_output_files@.len()
                &&& forall|k: int|
                    0 <= k < created@.len() ==> {
                        let c = (#[trigger] created@[k])@;
                        &&& c.job_id == new_output_files@[k]@.job_id
                        &&& c.datum_id == new_output_files@[k]@.datum_id
                        &&& c.uri == new_output_files@[k]@.uri
                        &&& c.status == Status::Running
                        &&& c.created_at == now as int
                        &&& c.updated_at == now as int
                    }
                &&& final(state)@ == (StateView {
                    output_files: old(state)@.output_files + created@.map_values(
                        |f: OutputFile| f@,
                    ),
                    ..old(state)@
                })
            },
            Err(e) => e == Error::DuplicateId && final(state)@ == old(state)@,
        },
{
    NewOutputFile::insert_all(new_output_files, now, state)
}

/// The ids of the patches that carry the given status.
pub open spec fn patch_ids_with_status(patches: Seq<OutputFilePatch>, status: Status) -> Seq<u128> {
    patches.filter(|p: OutputFilePatch| p.status == status).map_values(|p: OutputFilePatch| p.id)
}

/// Update a batch of output files: each patch sets its file to done or to
/// error. A patch with any other status rejects the whole batch, unchanged.
pub fn patch_output_files(patches: &Vec<OutputFilePatch>, now: i64, state: &mut State) -> (r:
    Result<(), Error>)
    requires
        old(state)@.wf(),
        0 <= now,
    ensures
        final(state)@.wf(),
        match r {
            Ok(()) => (forall|k: int|
                0 <= k < patches@.len() ==> ((#[trigger] patches@[k]).status == Status::Done
                    || patches@[k].status == Status::Error)) && final(state)@ == (StateView {
                output_files: patch_output_by_ids(
                    patch_output_by_ids(
                        old(state)@.output_files,
                        patch_ids_with_status(patches@, Status::Done),
                        Status::Done,
                        now as int,
                    ),
                    patch_ids_with_status(patches@, Status::Error),
                    Status::Error,
                    now as int,
                ),
                ..old(state)@
            }),
            Err(e) => e == Error::InvalidOutputFilePatch && (exists|k: int|
                0 <= k < patches@.len() && (#[trigger] patches@[k]).status != Status::Done
                    && patches@[k].status != Status::Error) && final(state)@ == old(state)@,
        },
{
    let ghost ps = patches@;
    // Separate the patches by status, rejecting anything unsupported before
    // touching the store.
    let mut done_ids: Vec<u128> = Vec::new();
    let mut error_ids: Vec<u128> = Vec::new();
    let mut k: usize = 0;
    proof {
        reveal(Seq::filter);
    }
    while k < patches.len()
        invariant
            state@ == old(state)@,
            old(state)@.wf(),
            0 <= k <= ps.len(),
            ps == patches@,
            done_ids@ == patch_ids_with_status(ps.take(k as int), Status::Done),
            error_ids@ == patch_ids_with_status(ps.take(k as int), Status::Error),
            forall|j: int|
                0 <= j < k ==> ((#[trigger] ps[j]).status == Status::Done || ps[j].status
                    == Status::Error),
        decreases ps.len() - k,
    {
        proof {
            crate::state::lemma_filter_take_step(
                ps,
                |p: OutputFilePatch| p.status == Status::Done,
                k as int,
            );
            crate::state::lemma_filter_take_step(
                ps,
                |p: OutputFilePatch| p.status == Status::Error,
                k as int,
            );
        }
        let p = &patches[k];
        match p.status {
            Status::Done => {
                done_ids.push(p.id);
                proof {
                    assert(done_ids@ =~= patch_ids_with_status(ps.take(k + 1), Status::Done));
                    assert(error_ids@ =~= patch_ids_with_status(ps.take(k + 1), Status::Error));
                }
            },
            Status::Error => {
                error_ids.push(p.id);
                proof {
                    assert(done_ids@ =~= patch_ids_with_status(ps.take(k + 1), Status::Done));
                    assert(error_ids@ =~= patch_ids_with_status(ps.take(k + 1), Status::Error));
                }
            },
            _ => {
                return Err(Error::InvalidOutputFilePatch);
            },
        }
        k += 1;
    }
    proof {
        assert(ps.take(ps.len() as int) =~= ps);
    }
    // Apply both updates.
    OutputFile::mark_ids_as_done(&done_ids, now, state);
    OutputFile::mark_ids_as_error(&error_ids, now, state);
    Ok(())
}

} // verus!
