//! The babysitter: a periodic reconciler that corrects drift between the
//! persistent state and the live cluster.
//!
//! Each tick it checks, in order: jobs that should already have been marked
//! finished or whose cluster workload has vanished; datums that claim to run
//! on pods that no longer exist; and errored datums that are eligible for
//! another attempt. The caller supplies the live cluster facts (the names of
//! the cluster's jobs and of its running pods) and the current time, runs
//! the tick, and sleeps; all the work is idempotent, so concurrent replicas
//! may race safely under the store's row locks.

use vstd::prelude::*;

use crate::datum::{is_zombie, marked_error, requeued, DatumView};
use crate::job::JobView;
use crate::output_file::{OutputFile, OutputFileView};
use crate::state::{
    apply_status_decision, has_datum, has_job, job_index_of, job_is_running, lemma_counts_agree,
    lemma_pin_datum_index, lemma_pin_job_index, lemma_unfinished_positive, State, StateView,
};
use crate::status::Status;
use crate::text::{contains_string, spec_contains_string};

verus! {

/// How long a running job may lack a cluster workload before it is declared
/// vanished: fifteen minutes, in microseconds.
pub const VANISHED_JOB_WINDOW_MICROS: i64 = 900_000_000;

/// One job row after the finished-and-vanished check: any completion the
/// event path missed is applied first; then, if the job is still running,
/// was created more than the window ago, and has no cluster workload with
/// its name, it is marked as having errored.
pub open spec fn vanished_checked_job(
    j: JobView,
    datums: Seq<DatumView>,
    job_names: Seq<Seq<char>>,
    now: int,
) -> JobView {
    let j1 = apply_status_decision(j, datums, now);
    if j1.status == Status::Running && j1.created_at + VANISHED_JOB_WINDOW_MICROS < now
        && !job_names.contains(j1.job_name) {
        JobView { status: Status::Error, updated_at: now, ..j1 }
    } else {
        j1
    }
}

/// The state after the finished-and-vanished check ran over every job.
pub open spec fn vanish_step(s: StateView, job_names: Seq<Seq<char>>, now: int) -> StateView {
    StateView {
        jobs: Seq::new(
            s.jobs.len(),
            |i: int| vanished_checked_job(s.jobs[i], s.datums, job_names, now),
        ),
        ..s
    }
}

/// Check for jobs which should already have been marked as finished, or
/// which have vanished off the cluster. `all_job_names` is the set of
/// workload names currently present on the cluster.
pub fn check_for_finished_and_vanished_jobs(
    all_job_names: &Vec<String>,
    now: i64,
    state: &mut State,
)
    requires
        old(state)@.wf(),
        0 <= now,
    ensures
        final(state)@.wf(),
        final(state)@ == vanish_step(old(state)@, all_job_names.deep_view(), now as int),
{
    let ghost s0 = old(state)@;
    let ghost names = all_job_names.deep_view();
    let n = state.jobs.len();
    let mut i: usize = 0;
    while i < n
        invariant
            0 <= i <= n,
            s0 == old(state)@,
            s0.wf(),
            0 <= now,
            names == all_job_names.deep_view(),
            n == s0.jobs.len(),
            state@.jobs.len() == n,
            state@.datums == s0.datums,
            state@.input_files == s0.input_files,
            state@.output_files == s0.output_files,
            state@.wf(),
            forall|t: int| i <= t < n ==> state@.jobs[t] == s0.jobs[t],
            forall|t: int|
                0 <= t < i ==> state@.jobs[t] == vanished_checked_job(
                    s0.jobs[t],
                    s0.datums,
                    names,
                    now as int,
                ),
        decreases n - i,
    {
        let ghost pre = state@;
        // Take the row lock: reload the row, as the transaction would.
        let mut job = state.jobs[i].duplicate();
        // Catch any completion the event path missed.
        match job.update_status_if_done(now, state) {
            Ok(()) => {},
            Err(_) => {
                proof {
                    assert(has_job(pre.jobs, pre.jobs[i as int].id));
                    assert(false);
                }
            },
        }
        proof {
            lemma_pin_job_index(pre.jobs, i as int, pre.jobs[i as int].id);
        }
        let ghost j1 = apply_status_decision(s0.jobs[i as int], s0.datums, now as int);
        proof {
            assert(state@.jobs =~= pre.jobs.update(i as int, j1));
            assert(job@ == j1);
        }
        // If the job has been running for a while but has no associated
        // cluster workload, assume it exceeded its time to live or was
        // deleted, and record the error.
        if job.status == Status::Running && job.created_at < now - VANISHED_JOB_WINDOW_MICROS {
            let present = contains_string(all_job_names, &job.job_name);
            proof {
                assert(present == names.contains(job@.job_name)) by {
                    if spec_contains_string(all_job_names@, job@.job_name) {
                        let w = choose|w: int|
                            0 <= w < all_job_names@.len() && all_job_names@[w]@ == job@.job_name;
                        assert(names[w] == job@.job_name);
                    }
                    if names.contains(job@.job_name) {
                        let w = choose|w: int| 0 <= w < names.len() && names[w] == job@.job_name;
                        assert(all_job_names@[w]@ == job@.job_name);
                    }
                }
            }
            if !present {
                let ghost mid = state@;
                match job.mark_as_error(now, state) {
                    Ok(()) => {},
                    Err(_) => {
                        proof {
                            assert(mid.jobs[i as int].id == j1.id);
                            assert(has_job(mid.jobs, j1.id));
                            assert(false);
                        }
                    },
                }
                proof {
                    assert(mid.jobs[i as int].id == j1.id);
                    assert forall|k: int, l: int|
                        #![trigger mid.jobs[k], mid.jobs[l]]
                        0 <= k < mid.jobs.len() && 0 <= l < mid.jobs.len() && mid.jobs[k].id
                            == mid.jobs[l].id implies k == l by {}
                    lemma_pin_job_index(mid.jobs, i as int, j1.id);
                    assert(state@.jobs =~= pre.jobs.update(
                        i as int,
                        vanished_checked_job(s0.jobs[i as int], s0.datums, names, now as int),
                    ));
                }
            }
        }
        proof {
            assert(state@.jobs[i as int] == vanished_checked_job(
                s0.jobs[i as int],
                s0.datums,
                names,
                now as int,
            ));
        }
        i += 1;
    }
    proof {
        assert(state@.jobs =~= Seq::new(
            s0.jobs.len(),
            |t: int| vanished_checked_job(s0.jobs[t], s0.datums, names, now as int),
        ));
        assert(state@ == vanish_step(s0, names, now as int));
    }
}

/// A datum row after the zombie check: a datum running on a vanished pod is
/// marked as having errored, with a synthetic diagnosis; anything else is
/// left alone.
pub open spec fn zombified_datum(
    d: DatumView,
    s: StateView,
    pods: Seq<Seq<char>>,
    now: int,
) -> DatumView {
    if is_zombie(s, d, pods) {
        marked_error(
            d,
            "(did not capture output)"@,
            "worker pod disappeared while working on datum"@,
            "(no backtrace available)"@,
            now,
        )
    } else {
        d
    }
}

/// The datum table after the zombie check.
pub open spec fn zombified_datums(s: StateView, pods: Seq<Seq<char>>, now: int) -> Seq<DatumView> {
    Seq::new(s.datums.len(), |k: int| zombified_datum(s.datums[k], s, pods, now))
}

/// The job owns at least one zombie datum.
pub open spec fn job_has_zombie(s: StateView, job_id: u128, pods: Seq<Seq<char>>) -> bool {
    exists|t: int|
        0 <= t < s.datums.len() && is_zombie(s, #[trigger] s.datums[t], pods) && s.datums[t].job_id
            == job_id
}

/// One job row after the zombie check: after the last of its zombies is
/// marked, the job's status is updated if nothing is left to do.
pub open spec fn zombie_checked_job(
    j: JobView,
    s: StateView,
    pods: Seq<Seq<char>>,
    now: int,
) -> JobView {
    if j.status == Status::Running && job_has_zombie(s, j.id, pods) {
        apply_status_decision(j, zombified_datums(s, pods, now), now)
    } else {
        j
    }
}

/// The state after the zombie check ran over every datum.
pub open spec fn zombie_step(s: StateView, pods: Seq<Seq<char>>, now: int) -> StateView {
    StateView {
        jobs: Seq::new(s.jobs.len(), |i: int| zombie_checked_job(s.jobs[i], s, pods, now)),
        datums: zombified_datums(s, pods, now),
        ..s
    }
}

/// Check for datums which claim to be running in a pod that no longer
/// exists: mark each as errored and, once a job has no zombies left, update
/// that job's status. `running_pod_names` is the set of pods currently
/// running on the cluster.
pub fn check_for_zombie_datums(running_pod_names: &Vec<String>, now: i64, state: &mut State)
    requires
        old(state)@.wf(),
        0 <= now,
    ensures
        final(state)@.wf(),
        final(state)@ == zombie_step(old(state)@, running_pod_names.deep_view(), now as int),
{
    let ghost s0 = old(state)@;
    let ghost pods = running_pod_names.deep_view();
    let ghost target_datums = zombified_datums(s0, pods, now as int);
    let n = state.datums.len();
    let mut k: usize = 0;
    while k < n
        invariant
            0 <= k <= n,
            s0 == old(state)@,
            s0.wf(),
            0 <= now,
            pods == running_pod_names.deep_view(),
            target_datums == zombified_datums(s0, pods, now as int),
            n == s0.datums.len(),
            state@.datums.len() == n,
            state@.input_files == s0.input_files,
            state@.output_files == s0.output_files,
            state@.wf(),
            forall|t: int| k <= t < n ==> state@.datums[t] == s0.datums[t],
            forall|t: int| 0 <= t < k ==> state@.datums[t] == target_datums[t],
            state@.jobs.len() == s0.jobs.len(),
            forall|i: int|
                0 <= i < s0.jobs.len() ==> #[trigger] state@.jobs[i] == (if s0.jobs[i].status
                    == Status::Running && (exists|t: int|
                    0 <= t < k && is_zombie(s0, #[trigger] s0.datums[t], pods)
                        && s0.datums[t].job_id == s0.jobs[i].id) && !(exists|t: int|
                    k <= t < n && is_zombie(s0, #[trigger] s0.datums[t], pods)
                        && s0.datums[t].job_id == s0.jobs[i].id) {
                    apply_status_decision(s0.jobs[i], target_datums, now as int)
                } else {
                    s0.jobs[i]
                }),
        decreases n - k,
    {
        let is_running = state.datums[k].status == Status::Running;
        let pod_vanished = match &state.datums[k].pod_name {
            Some(p) => {
                let present = contains_string(running_pod_names, p);
                proof {
                    assert(present == pods.contains(p@)) by {
                        if spec_contains_string(running_pod_names@, p@) {
                            let w = choose|w: int|
                                0 <= w < running_pod_names@.len() && running_pod_names@[w]@ == p@;
                            assert(pods[w] == p@);
                        }
                        if pods.contains(p@) {
                            let w = choose|w: int| 0 <= w < pods.len() && pods[w] == p@;
                            assert(running_pod_names@[w]@ == p@);
                        }
                    }
                }
                !present
            },
            None => true,
        };
        if is_running && pod_vanished {
            let ghost row = s0.datums[k as int];
            let ghost job_id = row.job_id;
            // The row is running, so its owner's current status equals its
            // status at the start of the tick: while any of a job's datums
            // is unfinished, the status decision leaves the job alone.
            proof {
                if has_job(s0.jobs, job_id) {
                    let ji = job_index_of(s0.jobs, job_id);
                    assert(s0.jobs[ji].id == job_id);
                    if state@.jobs[ji] != s0.jobs[ji] {
                        assert(target_datums[k as int].job_id == job_id);
                        assert(is_zombie(s0, s0.datums[k as int], pods) ==> false) by {
                            if is_zombie(s0, s0.datums[k as int], pods) {
                                assert(exists|t: int|
                                    k <= t < n && is_zombie(s0, #[trigger] s0.datums[t], pods)
                                        && s0.datums[t].job_id == s0.jobs[ji].id);
                            }
                        }
                        assert(target_datums[k as int] == s0.datums[k as int]);
                        lemma_unfinished_positive(target_datums, job_id, k as int);
                        assert(state@.jobs[ji] == s0.jobs[ji]);
                    }
                    lemma_pin_job_index(state@.jobs, ji, job_id);
                }
            }
            let job_running = match state.find_job_index(state.datums[k].job_id) {
                Some(ji) => state.jobs[ji].status == Status::Running,
                None => false,
            };
            proof {
                assert(job_running == job_is_running(s0.jobs, job_id)) by {
                    if has_job(s0.jobs, job_id) {
                        let ji = job_index_of(s0.jobs, job_id);
                        lemma_pin_job_index(s0.jobs, ji, job_id);
                        assert(state@.jobs[ji].id == job_id);
                        lemma_pin_job_index(state@.jobs, ji, job_id);
                        if state@.jobs[ji] != s0.jobs[ji] {
                            assert(is_zombie(s0, s0.datums[k as int], pods) ==> false) by {
                                if is_zombie(s0, s0.datums[k as int], pods) {
                                    assert(exists|t: int|
                                        k <= t < n && is_zombie(s0, #[trigger] s0.datums[t], pods)
                                            && s0.datums[t].job_id == s0.jobs[ji].id);
                                }
                            }
                            assert(target_datums[k as int] == s0.datums[k as int]);
                            lemma_unfinished_positive(target_datums, job_id, k as int);
                        }
                    } else {
                        if has_job(state@.jobs, job_id) {
                            let w = choose|w: int|
                                0 <= w < state@.jobs.len() && state@.jobs[w].id == job_id;
                            assert(s0.jobs[w].id == job_id);
                        }
                    }
                }
            }
            if job_running {
                proof {
                    assert(is_zombie(s0, s0.datums[k as int], pods));
                }
                let ghost pre = state@;
                // Lock the row; it is still running, so mark it as errored
                // with the synthetic diagnosis, then update its job.
                let mut zombie = state.datums[k].duplicate();
                match zombie.mark_as_error(
                    "(did not capture output)",
                    "worker pod disappeared while working on datum",
                    "(no backtrace available)",
                    now,
                    state,
                ) {
                    Ok(()) => {},
                    Err(_) => {
                        proof {
                            assert(has_datum(pre.datums, pre.datums[k as int].id));
                            assert(false);
                        }
                    },
                }
                proof {
                    lemma_pin_datum_index(pre.datums, k as int, pre.datums[k as int].id);
                    assert(state@.datums =~= pre.datums.update(
                        k as int,
                        target_datums[k as int],
                    ));
                    assert(zombie@ == target_datums[k as int]);
                }
                let ghost mid = state@;
                match zombie.update_job_status_if_done(now, state) {
                    Ok(()) => {},
                    Err(_) => {
                        proof {
                            let ji = job_index_of(s0.jobs, job_id);
                            assert(mid.jobs[ji].id == job_id);
                            assert(has_job(mid.jobs, job_id));
                            assert(false);
                        }
                    },
                }
                proof {
                    let ji = job_index_of(s0.jobs, job_id);
                    lemma_pin_job_index(s0.jobs, ji, job_id);
                    assert(mid.jobs[ji].id == job_id);
                    lemma_pin_job_index(mid.jobs, ji, job_id);
                    assert(mid.jobs[ji] == s0.jobs[ji]);
                    let decided = apply_status_decision(mid.jobs[ji], mid.datums, now as int);
                    assert(state@.jobs =~= mid.jobs.update(ji, decided));
                    // If the job still has an unmarked zombie, the decision
                    // leaves it alone; otherwise its rows already agree with
                    // the fully zombified table, so the decision is final.
                    if exists|t: int|
                        k + 1 <= t < n && is_zombie(s0, #[trigger] s0.datums[t], pods)
                            && s0.datums[t].job_id == job_id {
                        let t = choose|t: int|
                            k + 1 <= t < n && is_zombie(s0, #[trigger] s0.datums[t], pods)
                                && s0.datums[t].job_id == job_id;
                        assert(mid.datums[t] == s0.datums[t]);
                        lemma_unfinished_positive(mid.datums, job_id, t);
                        assert(decided == mid.jobs[ji]);
                    } else {
                        assert forall|t: int|
                            0 <= t < n implies (#[trigger] mid.datums[t] == #[trigger] target_datums[t]
                            || (mid.datums[t].job_id != job_id && target_datums[t].job_id
                                != job_id)) by {
                            if t > k && s0.datums[t].job_id == job_id {
                                assert(!is_zombie(s0, s0.datums[t], pods));
                                assert(target_datums[t] == s0.datums[t]);
                            }
                        }
                        lemma_counts_agree(mid.datums, target_datums, job_id);
                        assert(decided == apply_status_decision(
                            s0.jobs[ji],
                            target_datums,
                            now as int,
                        ));
                    }
                }
            } else {
                proof {
                    assert(!is_zombie(s0, s0.datums[k as int], pods));
                    assert(target_datums[k as int] == s0.datums[k as int]);
                }
            }
        } else {
            proof {
                assert(!is_zombie(s0, s0.datums[k as int], pods));
                assert(target_datums[k as int] == s0.datums[k as int]);
            }
        }
        k += 1;
    }
    proof {
        assert(state@.datums =~= target_datums);
        assert(state@.jobs =~= Seq::new(
            s0.jobs.len(),
            |i: int| zombie_checked_job(s0.jobs[i], s0, pods, now as int),
        ));
        assert(state@ == zombie_step(s0, pods, now as int));
    }
}

/// A datum may be re-queued when it has errored with attempts left and its
/// job is still running.
pub open spec fn requeue_eligible(s: StateView, d: DatumView) -> bool {
    d.is_rerunable() && job_is_running(s.jobs, d.job_id)
}

/// A datum row after the rerun check: an eligible datum goes back to ready;
/// anything else is left alone.
pub open spec fn requeued_datum(d: DatumView, s: StateView, now: int) -> DatumView {
    if requeue_eligible(s, d) {
        requeued(d, now)
    } else {
        d
    }
}

/// Some datum among the first `k` rows carries this id and is eligible for a
/// re-run.
pub open spec fn requeued_before(s: StateView, datum_id: u128, k: int) -> bool {
    exists|t: int|
        0 <= t < k && (#[trigger] s.datums[t]).id == datum_id && requeue_eligible(s, s.datums[t])
}

/// The state after the rerun check ran over every datum: eligible datums are
/// ready again, and their old output-file records are gone.
pub open spec fn rerun_step(s: StateView, now: int) -> StateView {
    StateView {
        datums: Seq::new(s.datums.len(), |k: int| requeued_datum(s.datums[k], s, now)),
        output_files: s.output_files.filter(
            |f: OutputFileView| !requeued_before(s, f.datum_id, s.datums.len() as int),
        ),
        ..s
    }
}

/// Filtering by one predicate and then another is filtering by their
/// conjunction.
proof fn lemma_output_filter_compose(
    s: Seq<OutputFileView>,
    p: spec_fn(OutputFileView) -> bool,
    q: spec_fn(OutputFileView) -> bool,
    pq: spec_fn(OutputFileView) -> bool,
)
    requires
        forall|x: OutputFileView| #[trigger] pq(x) <==> (p(x) && q(x)),
    ensures
        s.filter(p).filter(q) == s.filter(pq),
    decreases s.len(),
{
    reveal(Seq::filter);
    if s.len() > 0 {
        let head = s.drop_last();
        lemma_output_filter_compose(head, p, q, pq);
        if p(s.last()) {
            let sub = head.filter(p);
            assert(s.filter(p) == sub.push(s.last()));
            assert(sub.push(s.last()).drop_last() =~= sub);
            assert(sub.push(s.last()).last() == s.last());
        }
    }
}

/// Check for datums which are in the error state but eligible for another
/// attempt: set each back to ready (the attempt counter is incremented at
/// reservation time, not here) and delete its old output-file records so a
/// fresh attempt can upload anew.
pub fn check_for_datums_which_can_be_rerun(now: i64, state: &mut State)
    requires
        old(state)@.wf(),
        0 <= now,
    ensures
        final(state)@.wf(),
        final(state)@ == rerun_step(old(state)@, now as int),
{
    let ghost s0 = old(state)@;
    proof {
        lemma_filter_all_true(
            s0.output_files,
            |f: OutputFileView| !requeued_before(s0, f.datum_id, 0int),
        );
    }
    let n = state.datums.len();
    let mut k: usize = 0;
    while k < n
        invariant
            0 <= k <= n,
            s0 == old(state)@,
            s0.wf(),
            0 <= now,
            n == s0.datums.len(),
            state@.datums.len() == n,
            state@.jobs == s0.jobs,
            state@.input_files == s0.input_files,
            state@.wf(),
            forall|t: int| k <= t < n ==> state@.datums[t] == s0.datums[t],
            forall|t: int|
                0 <= t < k ==> state@.datums[t] == requeued_datum(s0.datums[t], s0, now as int),
            state@.output_files == s0.output_files.filter(
                |f: OutputFileView| !requeued_before(s0, f.datum_id, k as int),
            ),
        decreases n - k,
    {
        // Re-check eligibility under the row lock, as the babysitter must:
        // another replica may have beaten us to this datum.
        let eligible = state.datums[k].is_rerunable() && {
            match state.find_job_index(state.datums[k].job_id) {
                Some(ji) => state.jobs[ji].status == Status::Running,
                None => false,
            }
        };
        proof {
            let job_id = s0.datums[k as int].job_id;
            if has_job(s0.jobs, job_id) {
                let ji = job_index_of(s0.jobs, job_id);
                lemma_pin_job_index(s0.jobs, ji, job_id);
            }
            assert(eligible == requeue_eligible(s0, s0.datums[k as int])) by {
                if !has_job(s0.jobs, job_id) && has_job(state@.jobs, job_id) {
                    let w = choose|w: int|
                        0 <= w < state@.jobs.len() && state@.jobs[w].id == job_id;
                    assert(s0.jobs[w].id == job_id);
                }
            }
        }
        if eligible {
            let ghost pre = state@;
            // Lock the row and mark it ready for another attempt.
            let mut datum = state.datums[k].duplicate();
            proof {
                lemma_pin_datum_index(pre.datums, k as int, pre.datums[k as int].id);
            }
            datum.mark_as_eligible_for_rerun(now, state);
            proof {
                assert(state@.datums =~= pre.datums.update(
                    k as int,
                    requeued(s0.datums[k as int], now as int),
                ));
                assert(datum@ == requeued(s0.datums[k as int], now as int));
            }
            // Remove the datum's output-file records, so the same outputs
            // can be uploaded again by the fresh attempt.
            let ghost mid_files = state@.output_files;
            OutputFile::delete_for_datum(&datum, state);
            proof {
                let id_k = s0.datums[k as int].id;
                let keep_k = |f: OutputFileView| !requeued_before(s0, f.datum_id, k as int);
                let keep_k1 = |f: OutputFileView| !requeued_before(s0, f.datum_id, k + 1);
                let neq = |f: OutputFileView| f.datum_id != datum.id;
                assert forall|x: OutputFileView| #[trigger] keep_k1(x) <==> (keep_k(x) && neq(
                    x,
                )) by {
                    if requeued_before(s0, x.datum_id, k as int) {
                        let t = choose|t: int|
                            0 <= t < k && (#[trigger] s0.datums[t]).id == x.datum_id
                                && requeue_eligible(s0, s0.datums[t]);
                        assert(requeued_before(s0, x.datum_id, k + 1));
                    }
                    if x.datum_id == id_k {
                        assert(s0.datums[k as int].id == x.datum_id && requeue_eligible(
                            s0,
                            s0.datums[k as int],
                        ));
                        assert(requeued_before(s0, x.datum_id, k + 1));
                    }
                    if requeued_before(s0, x.datum_id, k + 1) && !requeued_before(
                        s0,
                        x.datum_id,
                        k as int,
                    ) {
                        let t = choose|t: int|
                            0 <= t < k + 1 && (#[trigger] s0.datums[t]).id == x.datum_id
                                && requeue_eligible(s0, s0.datums[t]);
                        assert(t == k);
                    }
                }
                lemma_output_filter_compose(s0.output_files, keep_k, neq, keep_k1);
            }
        } else {
            proof {
                assert(requeued_datum(s0.datums[k as int], s0, now as int) == s0.datums[k as int]);
                let keep_k = |f: OutputFileView| !requeued_before(s0, f.datum_id, k as int);
                let keep_k1 = |f: OutputFileView| !requeued_before(s0, f.datum_id, k + 1);
                assert forall|x: OutputFileView| #[trigger] keep_k(x) == keep_k1(x) by {
                    if requeued_before(s0, x.datum_id, k as int) {
                        let t = choose|t: int|
                            0 <= t < k && (#[trigger] s0.datums[t]).id == x.datum_id
                                && requeue_eligible(s0, s0.datums[t]);
                        assert(requeued_before(s0, x.datum_id, k + 1));
                    }
                    if requeued_before(s0, x.datum_id, k + 1) {
                        let t = choose|t: int|
                            0 <= t < k + 1 && (#[trigger] s0.datums[t]).id == x.datum_id
                                && requeue_eligible(s0, s0.datums[t]);
                        if t == k {
                            assert(requeue_eligible(s0, s0.datums[k as int]));
                        } else {
                            assert(requeued_before(s0, x.datum_id, k as int));
                        }
                    }
                }
                lemma_filter_by_equivalent_predicates(s0.output_files, keep_k, keep_k1);
            }
        }
        k += 1;
    }
    proof {
        assert(state@.datums =~= Seq::new(
            s0.datums.len(),
            |t: int| requeued_datum(s0.datums[t], s0, now as int),
        ));
        assert(state@ == rerun_step(s0, now as int));
    }
}

/// A predicate that holds of every row filters nothing away.
proof fn lemma_filter_all_true(s: Seq<OutputFileView>, p: spec_fn(OutputFileView) -> bool)
    requires
        forall|x: OutputFileView| #[trigger] p(x),
    ensures
        s.filter(p) == s,
    decreases s.len(),
{
    reveal(Seq::filter);
    if s.len() > 0 {
        lemma_filter_all_true(s.drop_last(), p);
        assert(s.filter(p) =~= s);
    }
}

/// Two pointwise-equal predicates filter a table identically.
proof fn lemma_filter_by_equivalent_predicates(
    s: Seq<OutputFileView>,
    p: spec_fn(OutputFileView) -> bool,
    q: spec_fn(OutputFileView) -> bool,
)
    requires
        forall|x: OutputFileView| #[trigger] p(x) == q(x),
    ensures
        s.filter(p) == s.filter(q),
    decreases s.len(),
{
    reveal(Seq::filter);
    if s.len() > 0 {
        lemma_filter_by_equivalent_predicates(s.drop_last(), p, q);
    }
}

/// One babysitter tick: apply any missed completions and catch vanished
/// jobs, then mark zombie datums, then re-queue rerunable datums. Datums
/// marked as errored by the zombie check are picked up by the rerun check of
/// the same tick, if they are eligible.
pub fn check_running_jobs(
    all_job_names: &Vec<String>,
    running_pod_names: &Vec<String>,
    now: i64,
    state: &mut State,
)
    requires
        old(state)@.wf(),
        0 <= now,
    ensures
        final(state)@.wf(),
        final(state)@ == rerun_step(
            zombie_step(
                vanish_step(old(state)@, all_job_names.deep_view(), now as int),
                running_pod_names.deep_view(),
                now as int,
            ),
            now as int,
        ),
{
    check_for_finished_and_vanished_jobs(all_job_names, now, state);
    check_for_zombie_datums(running_pod_names, now, state);
    check_for_datums_which_can_be_rerun(now, state);
}

} // verus!
