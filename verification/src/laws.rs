//! The laws of the scheduler, proved from the contracts of the operations:
//! conservation of a job's datums, idempotent reservation, distinctness of
//! reservations, the retry cap, the job's terminal transition, and the
//! cleanup of output files on retry.

use vstd::prelude::*;

use crate::babysitter::{
    requeue_eligible, requeued_before, rerun_step, vanish_step, vanished_checked_job, zombie_step,
    zombified_datum, VANISHED_JOB_WINDOW_MICROS,
};
use crate::datum::{reserved, DatumView};
use crate::state::{
    count_all, count_datums, count_failed, count_rerunable, count_unfinished, first_ready,
    has_running_for_pod, is_failed, is_unfinished, job_status_decision,
    lemma_pin_running_index, running_index_for_pod, running_match, StateView,
};
use crate::status::Status;

verus! {

/// The total count of a job's datums depends only on which rows the job
/// owns: any two tables whose rows own the same jobs, position by position,
/// hold the same number of the job's datums.
pub proof fn lemma_count_all_agrees(d1: Seq<DatumView>, d2: Seq<DatumView>, job_id: u128)
    requires
        d1.len() == d2.len(),
        forall|t: int| 0 <= t < d1.len() ==> (#[trigger] d1[t]).job_id == (#[trigger] d2[t]).job_id,
    ensures
        count_all(d1, job_id) == count_all(d2, job_id),
    decreases d1.len(),
{
    if d1.len() > 0 {
        assert forall|t: int|
            0 <= t < d1.drop_last().len() implies (#[trigger] d1.drop_last()[t]).job_id == (
        #[trigger] d2.drop_last()[t]).job_id by {
            assert(d1[t].job_id == d2[t].job_id);
        }
        lemma_count_all_agrees(d1.drop_last(), d2.drop_last(), job_id);
    }
}

/// Conservation under single-row updates: replacing one datum row with a row
/// of the same job (as every reservation, completion, failure and re-queue
/// does) never changes how many datums a job owns. Together with the
/// planner's contract, which says exactly how many datums a new job gets,
/// the number of a job's datums always equals the number the planner
/// emitted.
pub proof fn lemma_datum_count_preserved_by_update(
    datums: Seq<DatumView>,
    i: int,
    d: DatumView,
    job_id: u128,
)
    requires
        0 <= i < datums.len(),
        d.job_id == datums[i].job_id,
    ensures
        count_all(datums.update(i, d), job_id) == count_all(datums, job_id),
{
    lemma_count_all_agrees(datums.update(i, d), datums, job_id);
}

/// Conservation under the babysitter: one tick never creates or destroys a
/// datum, so the number of a job's datums is unchanged.
pub proof fn lemma_datum_count_preserved_by_tick(
    s: StateView,
    job_names: Seq<Seq<char>>,
    pod_names: Seq<Seq<char>>,
    now: int,
    job_id: u128,
)
    ensures
        count_all(
            rerun_step(zombie_step(vanish_step(s, job_names, now), pod_names, now), now).datums,
            job_id,
        ) == count_all(s.datums, job_id),
{
    let s1 = vanish_step(s, job_names, now);
    let s2 = zombie_step(s1, pod_names, now);
    let s3 = rerun_step(s2, now);
    assert(s1.datums == s.datums);
    lemma_count_all_agrees(s2.datums, s1.datums, job_id);
    lemma_count_all_agrees(s3.datums, s2.datums, job_id);
}

/// Idempotent reservation: after a worker's fresh reservation, the datum it
/// reserved is the one on record for its pod, with exactly one more attempt
/// on the books — so a second reservation request from the same pod (say,
/// after a lost response) is answered with the same datum, unchanged, and
/// the attempt counter has grown once, not twice.
pub proof fn lemma_reservation_idempotent(
    s: StateView,
    job_id: u128,
    node_name: Seq<char>,
    pod_name: Seq<char>,
    now: int,
)
    requires
        s.wf(),
        !has_running_for_pod(s.datums, job_id, pod_name),
        first_ready(s.datums, job_id) >= 0,
        s.datums[first_ready(s.datums, job_id)].job_id == job_id,
    ensures
        ({
            let i = first_ready(s.datums, job_id);
            let datums1 = s.datums.update(
                i,
                reserved(s.datums[i], node_name, pod_name, now),
            );
            &&& has_running_for_pod(datums1, job_id, pod_name)
            &&& running_index_for_pod(datums1, job_id, pod_name) == i
            &&& datums1[i].attempted_run_count == s.datums[i].attempted_run_count + 1
        }),
{
    crate::state::lemma_first_ready_props(s.datums, job_id, 0);
    let i = first_ready(s.datums, job_id);
    let d1 = reserved(s.datums[i], node_name, pod_name, now);
    let datums1 = s.datums.update(i, d1);
    assert(running_match(datums1[i], job_id, pod_name));
    assert forall|k: int, j: int|
        #![trigger datums1[k], datums1[j]]
        0 <= k < datums1.len() && 0 <= j < datums1.len() && datums1[k].status == Status::Running
            && datums1[j].status == Status::Running && datums1[k].job_id == datums1[j].job_id
            && datums1[k].pod_name == datums1[j].pod_name implies k == j by {
        if k != i && j == i {
            assert(running_match(s.datums[k], job_id, pod_name));
        }
        if j != i && k == i {
            assert(running_match(s.datums[j], job_id, pod_name));
        }
    }
    lemma_pin_running_index(datums1, i, job_id, pod_name);
}

/// At-most-one-worker: reservations hand out distinct datums. A fresh
/// reservation turns the chosen datum from ready to running, so the head of
/// the ready queue moves past it and a second fresh reservation picks a
/// different row — and, since ids are unique, a different datum id.
pub proof fn lemma_reservations_distinct(
    s: StateView,
    job_id: u128,
    node1: Seq<char>,
    pod1: Seq<char>,
    node2: Seq<char>,
    pod2: Seq<char>,
    now1: int,
    now2: int,
)
    requires
        s.wf(),
        first_ready(s.datums, job_id) >= 0,
    ensures
        ({
            let i1 = first_ready(s.datums, job_id);
            let datums1 = s.datums.update(i1, reserved(s.datums[i1], node1, pod1, now1));
            let i2 = first_ready(datums1, job_id);
            i2 >= 0 ==> i2 != i1 && datums1[i2].id != datums1[i1].id
        }),
{
    let i1 = first_ready(s.datums, job_id);
    let datums1 = s.datums.update(i1, reserved(s.datums[i1], node1, pod1, now1));
    let i2 = first_ready(datums1, job_id);
    crate::state::lemma_first_ready_props(datums1, job_id, 0);
    crate::state::lemma_first_ready_props(s.datums, job_id, 0);
    if i2 >= 0 {
        assert(datums1[i2].status == Status::Ready);
        assert(datums1[i1].status == Status::Running);
        assert(i2 != i1);
        if datums1[i2].id == datums1[i1].id {
            assert(s.datums[i2].id == s.datums[i1].id);
        }
    }
}

/// The vanished-job rule: a running job created more than the window before
/// `now`, whose name is absent from the cluster's workload names, is marked
/// as having errored by the babysitter's first check — provided some datum
/// of the job is still unfinished. (When every datum is settled, the
/// missed-completion step of the same check settles the job to done or error
/// first, and the vanished rule never sees it running.)
pub proof fn lemma_vanished_job_marked_error(
    s: StateView,
    job_names: Seq<Seq<char>>,
    now: int,
    i: int,
)
    requires
        0 <= i < s.jobs.len(),
        s.jobs[i].status == Status::Running,
        s.jobs[i].created_at + VANISHED_JOB_WINDOW_MICROS < now,
        !job_names.contains(s.jobs[i].job_name),
        exists|t: int|
            0 <= t < s.datums.len() && (#[trigger] s.datums[t]).job_id == s.jobs[i].id
                && is_unfinished(s.datums[t]),
    ensures
        vanish_step(s, job_names, now).jobs[i].status == Status::Error,
        vanish_step(s, job_names, now).jobs[i].updated_at == now,
        vanish_step(s, job_names, now).jobs[i].id == s.jobs[i].id,
{
    let t = choose|t: int|
        0 <= t < s.datums.len() && (#[trigger] s.datums[t]).job_id == s.jobs[i].id
            && is_unfinished(s.datums[t]);
    crate::state::lemma_unfinished_positive(s.datums, s.jobs[i].id, t);
    assert(vanish_step(s, job_names, now).jobs[i] == vanished_checked_job(
        s.jobs[i],
        s.datums,
        job_names,
        now,
    ));
}

/// The converse side of the vanished-job rule: a running job that is younger
/// than the window, or whose workload name is still on the cluster, is not
/// touched by the rule — the check changes it only as the missed-completion
/// step would.
pub proof fn lemma_vanished_rule_spares(
    s: StateView,
    job_names: Seq<Seq<char>>,
    now: int,
    i: int,
)
    requires
        0 <= i < s.jobs.len(),
        s.jobs[i].created_at + VANISHED_JOB_WINDOW_MICROS >= now || job_names.contains(
            s.jobs[i].job_name,
        ),
    ensures
        vanish_step(s, job_names, now).jobs[i] == crate::state::apply_status_decision(
            s.jobs[i],
            s.datums,
            now,
        ),
{
    assert(vanish_step(s, job_names, now).jobs[i] == vanished_checked_job(
        s.jobs[i],
        s.datums,
        job_names,
        now,
    ));
}

/// The retry cap: once a datum has errored with no attempts left, no
/// babysitter tick re-queues it (or touches it at all), so it stays errored
/// for good.
pub proof fn lemma_retry_cap(
    s: StateView,
    job_names: Seq<Seq<char>>,
    pod_names: Seq<Seq<char>>,
    now: int,
    t: int,
)
    requires
        0 <= t < s.datums.len(),
        s.datums[t].status == Status::Error,
        s.datums[t].attempted_run_count >= s.datums[t].maximum_allowed_run_count,
    ensures
        ({
            let after = rerun_step(
                zombie_step(vanish_step(s, job_names, now), pod_names, now),
                now,
            );
            after.datums[t] == s.datums[t]
        }),
{
    let s1 = vanish_step(s, job_names, now);
    let s2 = zombie_step(s1, pod_names, now);
    assert(s1.datums == s.datums);
    assert(s2.datums[t] == zombified_datum(s1.datums[t], s1, pod_names, now));
    assert(s2.datums[t] == s.datums[t]);
    assert(!requeue_eligible(s2, s2.datums[t]));
    assert(rerun_step(s2, now).datums[t] == s2.datums[t]);
}

/// A per-class count is zero exactly when no datum of the job is in the
/// class.
proof fn lemma_count_zero_iff(datums: Seq<DatumView>, job_id: u128, p: spec_fn(DatumView) -> bool)
    ensures
        count_datums(datums, job_id, p) == 0 <==> (forall|t: int|
            0 <= t < datums.len() ==> !((#[trigger] datums[t]).job_id == job_id && p(datums[t]))),
    decreases datums.len(),
{
    if datums.len() > 0 {
        lemma_count_zero_iff(datums.drop_last(), job_id, p);
        if count_datums(datums, job_id, p) == 0 {
            assert forall|t: int|
                0 <= t < datums.len() implies !((#[trigger] datums[t]).job_id == job_id && p(
                datums[t],
            )) by {
                if t < datums.len() - 1 {
                    assert(datums.drop_last()[t] == datums[t]);
                }
            }
        }
        if forall|t: int|
            0 <= t < datums.len() ==> !((#[trigger] datums[t]).job_id == job_id && p(datums[t])) {
            assert forall|t: int|
                0 <= t < datums.drop_last().len() implies !((#[trigger] datums.drop_last()[t]).job_id
                == job_id && p(datums.drop_last()[t])) by {
                assert(datums.drop_last()[t] == datums[t]);
            }
        }
    }
}

/// The job terminal transition: when the status decision settles a running
/// job, it picks `done` exactly when every datum of the job is done, and
/// `error` exactly when every datum of the job is settled (done, errored
/// with no retries left, or canceled) and at least one failed for good.
pub proof fn lemma_job_terminal_iff(datums: Seq<DatumView>, job_id: u128)
    ensures
        job_status_decision(datums, job_id) == Some(Status::Done) <==> (forall|t: int|
            0 <= t < datums.len() && (#[trigger] datums[t]).job_id == job_id ==> datums[t].status
                == Status::Done),
        job_status_decision(datums, job_id) == Some(Status::Error) <==> ((forall|t: int|
            0 <= t < datums.len() && (#[trigger] datums[t]).job_id == job_id ==> (datums[t].status
                == Status::Done || is_failed(datums[t]))) && (exists|t: int|
            0 <= t < datums.len() && (#[trigger] datums[t]).job_id == job_id && is_failed(
                datums[t],
            ))),
{
    lemma_count_zero_iff(datums, job_id, |d: DatumView| is_unfinished(d));
    lemma_count_zero_iff(datums, job_id, |d: DatumView| d.is_rerunable());
    lemma_count_zero_iff(datums, job_id, |d: DatumView| is_failed(d));
    assert(count_unfinished(datums, job_id) == count_datums(
        datums,
        job_id,
        |d: DatumView| is_unfinished(d),
    ));
    assert(count_rerunable(datums, job_id) == count_datums(
        datums,
        job_id,
        |d: DatumView| d.is_rerunable(),
    ));
    assert(count_failed(datums, job_id) == count_datums(
        datums,
        job_id,
        |d: DatumView| is_failed(d),
    ));
}

/// Output files are cleaned up on retry: after a babysitter re-queues an
/// eligible datum, no output-file record of that datum remains.
pub proof fn lemma_no_output_files_after_requeue(s: StateView, now: int, t: int)
    requires
        0 <= t < s.datums.len(),
        requeue_eligible(s, s.datums[t]),
    ensures
        forall|w: int|
            0 <= w < rerun_step(s, now).output_files.len() ==> (#[trigger] rerun_step(
                s,
                now,
            ).output_files[w]).datum_id != s.datums[t].id,
{
    let keep = |f: crate::output_file::OutputFileView|
        !requeued_before(s, f.datum_id, s.datums.len() as int);
    assert forall|w: int|
        0 <= w < rerun_step(s, now).output_files.len() implies (#[trigger] rerun_step(
        s,
        now,
    ).output_files[w]).datum_id != s.datums[t].id by {
        s.output_files.lemma_filter_pred(keep, w);
        let f = rerun_step(s, now).output_files[w];
        if f.datum_id == s.datums[t].id {
            assert(requeued_before(s, f.datum_id, s.datums.len() as int));
        }
    }
}

} // verus!
