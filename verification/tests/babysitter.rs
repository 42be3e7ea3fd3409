//! Tests for the babysitter and for starting and retrying jobs.

use std::collections::HashMap;

use falconeri::babysitter::{
    check_for_datums_which_can_be_rerun, check_for_finished_and_vanished_jobs,
    check_for_zombie_datums, check_running_jobs, VANISHED_JOB_WINDOW_MICROS,
};
use falconeri::datum::{Datum, NewDatum};
use falconeri::error::Error;
use falconeri::input_file::NewInputFile;
use falconeri::job::{Job, NewJob};
use falconeri::output_file::NewOutputFile;
use falconeri::pipeline::{Egress, Glob, Input, ParallelismSpec, Pipeline, PipelineSpec, Transform};
use falconeri::rest_api::{patch_datum, DatumPatch};
use falconeri::start_job::{capped_parallelism, retry_job, run_job, unique_kubernetes_job_name};
use falconeri::state::State;
use falconeri::status::Status;

fn new_job(id: u128, name: &str) -> NewJob {
    NewJob {
        id,
        pipeline_spec: "{}".to_string(),
        job_name: name.to_string(),
        command: vec!["echo".to_string()],
        egress_uri: "gs://bucket/out/".to_string(),
    }
}

fn job_with_datums(job_id: u128, n: u128, max_runs: i32) -> State {
    let mut state = State::new();
    new_job(job_id, "job-abcde").insert(1, &mut state).unwrap();
    let datums: Vec<NewDatum> = (0..n)
        .map(|k| NewDatum { id: 100 + k, job_id, maximum_allowed_run_count: max_runs })
        .collect();
    NewDatum::insert_all(&datums, 1, &mut state).unwrap();
    state
}

fn error_patch(message: &str) -> DatumPatch {
    DatumPatch {
        status: Status::Error,
        output: "(captured)".to_string(),
        error_message: Some(message.to_string()),
        backtrace: Some("(none)".to_string()),
    }
}

fn done_patch() -> DatumPatch {
    DatumPatch {
        status: Status::Done,
        output: "ok".to_string(),
        error_message: None,
        backtrace: None,
    }
}

fn strings(items: &[&str]) -> Vec<String> {
    items.iter().map(|s| s.to_string()).collect()
}

#[test]
fn zombie_datum_is_marked_as_error() {
    // A worker reserves a datum and its pod dies: the babysitter marks the
    // datum errored with a synthetic diagnosis, and with attempts left the
    // next tick re-queues it.
    let mut state = job_with_datums(1, 1, 2);
    let job = Job::find(1, &state).unwrap();
    let (d, _) = job.reserve_next_datum("node-a", "pod-gone", 2, &mut state).unwrap();
    check_for_zombie_datums(&strings(&["pod-alive"]), 3, &mut state);
    let zombie = Datum::find(d.id, &state).unwrap();
    assert_eq!(zombie.status, Status::Error);
    assert_eq!(
        zombie.error_message.as_deref(),
        Some("worker pod disappeared while working on datum")
    );
    assert_eq!(zombie.output.as_deref(), Some("(did not capture output)"));
    // Attempts remain, so the job is still running and the rerun check
    // re-queues the datum.
    assert_eq!(Job::find(1, &state).unwrap().status, Status::Running);
    check_for_datums_which_can_be_rerun(4, &mut state);
    assert_eq!(Datum::find(d.id, &state).unwrap().status, Status::Ready);
}

#[test]
fn zombie_whose_pod_lives_is_left_alone() {
    let mut state = job_with_datums(1, 1, 2);
    let job = Job::find(1, &state).unwrap();
    let (d, _) = job.reserve_next_datum("node-a", "pod-alive", 2, &mut state).unwrap();
    check_for_zombie_datums(&strings(&["pod-alive"]), 3, &mut state);
    assert_eq!(Datum::find(d.id, &state).unwrap().status, Status::Running);
}

#[test]
fn vanished_job_is_marked_as_error() {
    // The job was created at time 1 and its cluster workload is gone; past
    // the window, the babysitter gives up on it.
    let mut state = job_with_datums(1, 1, 1);
    let past_window = 1 + VANISHED_JOB_WINDOW_MICROS + 1;
    check_for_finished_and_vanished_jobs(&strings(&[]), past_window, &mut state);
    assert_eq!(Job::find(1, &state).unwrap().status, Status::Error);
}

#[test]
fn young_or_present_jobs_are_not_vanished() {
    let mut state = job_with_datums(1, 1, 1);
    // Too young.
    check_for_finished_and_vanished_jobs(&strings(&[]), 2, &mut state);
    assert_eq!(Job::find(1, &state).unwrap().status, Status::Running);
    // Old, but the workload is still on the cluster.
    let past_window = 1 + VANISHED_JOB_WINDOW_MICROS + 1;
    check_for_finished_and_vanished_jobs(&strings(&["job-abcde"]), past_window, &mut state);
    assert_eq!(Job::find(1, &state).unwrap().status, Status::Running);
}

#[test]
fn vanish_check_applies_missed_completions() {
    // All datums are done but the job's status update was lost: the next
    // tick catches it, well before the vanished-job rule could matter.
    let mut state = job_with_datums(1, 1, 1);
    let job = Job::find(1, &state).unwrap();
    let (d, _) = job.reserve_next_datum("n", "p", 2, &mut state).unwrap();
    patch_datum(d.id, &done_patch(), 3, &mut state).unwrap();
    check_for_finished_and_vanished_jobs(&strings(&[]), 4, &mut state);
    assert_eq!(Job::find(1, &state).unwrap().status, Status::Done);
}

#[test]
fn retry_cap_is_enforced() {
    // One datum, two attempts allowed; it fails twice. The babysitter
    // re-queues it once, and after the second failure it is out of attempts,
    // so the tick leaves it errored and the job fails.
    let mut state = job_with_datums(1, 1, 2);
    let job = Job::find(1, &state).unwrap();
    let (d, _) = job.reserve_next_datum("n", "pod-a", 2, &mut state).unwrap();
    patch_datum(d.id, &error_patch("first failure"), 3, &mut state).unwrap();
    check_running_jobs(&strings(&["job-abcde"]), &strings(&[]), 4, &mut state);
    assert_eq!(Datum::find(d.id, &state).unwrap().status, Status::Ready);
    let (d, _) = job.reserve_next_datum("n", "pod-a", 5, &mut state).unwrap();
    assert_eq!(d.attempted_run_count, 2);
    patch_datum(d.id, &error_patch("second failure"), 6, &mut state).unwrap();
    check_running_jobs(&strings(&["job-abcde"]), &strings(&[]), 7, &mut state);
    assert_eq!(Datum::find(d.id, &state).unwrap().status, Status::Error);
    assert_eq!(Job::find(1, &state).unwrap().status, Status::Error);
}

#[test]
fn third_attempt_can_succeed() {
    // One datum, three attempts allowed: two failures, each re-queued by the
    // babysitter, then success; the job completes and three attempts are on
    // the books.
    let mut state = job_with_datums(1, 1, 3);
    let job = Job::find(1, &state).unwrap();
    for failure in 0..2 {
        let (d, _) = job.reserve_next_datum("n", "pod-a", 10 + failure, &mut state).unwrap();
        patch_datum(d.id, &error_patch("transient"), 11 + failure, &mut state).unwrap();
        check_running_jobs(&strings(&["job-abcde"]), &strings(&[]), 12 + failure, &mut state);
        assert_eq!(Datum::find(d.id, &state).unwrap().status, Status::Ready);
    }
    let (d, _) = job.reserve_next_datum("n", "pod-a", 20, &mut state).unwrap();
    assert_eq!(d.attempted_run_count, 3);
    patch_datum(d.id, &done_patch(), 21, &mut state).unwrap();
    assert_eq!(Job::find(1, &state).unwrap().status, Status::Done);
    assert_eq!(Datum::find(d.id, &state).unwrap().attempted_run_count, 3);
}

#[test]
fn requeued_datum_has_no_output_files() {
    let mut state = job_with_datums(1, 1, 2);
    let job = Job::find(1, &state).unwrap();
    let (d, _) = job.reserve_next_datum("n", "p", 2, &mut state).unwrap();
    let new_files = vec![
        NewOutputFile { job_id: 1, datum_id: d.id, uri: "gs://bucket/out/a".to_string() },
    ];
    NewOutputFile::insert_all(&new_files, 3, &mut state).unwrap();
    patch_datum(d.id, &error_patch("boom"), 4, &mut state).unwrap();
    check_for_datums_which_can_be_rerun(5, &mut state);
    assert_eq!(Datum::find(d.id, &state).unwrap().status, Status::Ready);
    assert!(state.output_files.iter().all(|f| f.datum_id != d.id));
}

#[test]
fn run_job_plans_and_persists_everything() {
    let spec = PipelineSpec {
        pipeline: Pipeline { name: "Word_Count".to_string() },
        transform: Transform {
            cmd: vec!["python3".to_string(), "count.py".to_string()],
            image: "example/image".to_string(),
            image_pull_policy: None,
            env: HashMap::new(),
            secrets: vec![],
            service_account: None,
        },
        parallelism_spec: ParallelismSpec { constant: 2 },
        input: Input::Atom {
            uri: "gs://b/in/".to_string(),
            repo: "in".to_string(),
            glob: Glob::TopLevelDirectoryEntries,
        },
        egress: Egress { uri: "gs://b/out/".to_string() },
    };
    let listings = vec![strings(&["gs://b/in/a.csv", "gs://b/in/b.csv"])];
    let mut state = State::new();
    let job = run_job(&spec, &"{}".to_string(), 3, &listings, 1, &mut state).unwrap();
    assert_eq!(job.status, Status::Running);
    assert_eq!(job.egress_uri, "gs://b/out/");
    assert_eq!(state.jobs.len(), 1);
    assert_eq!(state.datums.len(), 2);
    assert_eq!(state.input_files.len(), 2);
    assert_eq!(state.datums[0].maximum_allowed_run_count, 3);
    assert_eq!(state.input_files[0].local_path, "/pfs/in/a.csv");
    // The job name is the lowercased, dashed pipeline name plus a tag.
    assert!(job.job_name.starts_with("word-count-"));
    assert_eq!(job.job_name.len(), "word-count-".len() + 5);
}

#[test]
fn retry_clones_only_failed_datums() {
    let mut state = job_with_datums(1, 2, 1);
    let files = vec![
        NewInputFile {
            datum_id: 100,
            uri: "gs://b/in/a".to_string(),
            local_path: "/pfs/in/a".to_string(),
            job_id: 1,
        },
        NewInputFile {
            datum_id: 101,
            uri: "gs://b/in/b".to_string(),
            local_path: "/pfs/in/b".to_string(),
            job_id: 1,
        },
    ];
    NewInputFile::insert_all(&files, 1, &mut state).unwrap();
    let job = Job::find(1, &state).unwrap();
    // Retrying a job that has not failed is refused.
    assert!(matches!(retry_job(&job, "pipe", 2, &mut state), Err(Error::NotRetryable)));
    // One datum succeeds, the other fails for good.
    let (d1, _) = job.reserve_next_datum("n", "pod-a", 2, &mut state).unwrap();
    let (d2, _) = job.reserve_next_datum("n", "pod-b", 2, &mut state).unwrap();
    patch_datum(d1.id, &done_patch(), 3, &mut state).unwrap();
    patch_datum(d2.id, &error_patch("boom"), 4, &mut state).unwrap();
    assert_eq!(Job::find(1, &state).unwrap().status, Status::Error);
    // The retry creates a new job holding a clone of the failed datum only.
    let new_job = retry_job(&job, "pipe", 5, &mut state).unwrap();
    assert_eq!(new_job.status, Status::Running);
    assert_eq!(new_job.pipeline_spec, "{}");
    assert_eq!(state.jobs.len(), 2);
    assert_eq!(state.datums.len(), 3);
    let cloned = &state.datums[2];
    assert_eq!(cloned.job_id, new_job.id);
    assert_eq!(cloned.status, Status::Ready);
    assert_eq!(cloned.attempted_run_count, 0);
    // The clone carries over the failed datum's input file.
    let clone_files: Vec<&falconeri::input_file::InputFile> =
        state.input_files.iter().filter(|f| f.datum_id == cloned.id).collect();
    assert_eq!(clone_files.len(), 1);
    let failed_uri = state
        .input_files
        .iter()
        .find(|f| f.datum_id == d2.id)
        .map(|f| f.uri.clone())
        .unwrap();
    assert_eq!(clone_files[0].uri, failed_uri);
}

#[test]
fn run_job_rejects_a_bad_listing_untouched() {
    let spec = PipelineSpec {
        pipeline: Pipeline { name: "pipe".to_string() },
        transform: Transform {
            cmd: vec!["true".to_string()],
            image: "example/image".to_string(),
            image_pull_policy: None,
            env: HashMap::new(),
            secrets: vec![],
            service_account: None,
        },
        parallelism_spec: ParallelismSpec { constant: 1 },
        input: Input::Atom {
            uri: "gs://b/in/".to_string(),
            repo: "in".to_string(),
            glob: Glob::TopLevelDirectoryEntries,
        },
        egress: Egress { uri: "gs://b/out/".to_string() },
    };
    // A listed entry ending in a slash is a configuration error: the whole
    // submission is refused and nothing is persisted.
    let listings = vec![strings(&["gs://b/in/subdir/"])];
    let mut state = State::new();
    assert!(matches!(
        run_job(&spec, &"{}".to_string(), 3, &listings, 1, &mut state),
        Err(Error::UriEndsWithSlash)
    ));
    assert_eq!(state.jobs.len(), 0);
    assert_eq!(state.datums.len(), 0);
    assert_eq!(state.input_files.len(), 0);
}

#[test]
fn job_names_are_lowercased_and_dashed() {
    let name = unique_kubernetes_job_name("My_Pipeline");
    assert!(name.starts_with("my-pipeline-"));
    assert_eq!(name.len(), "my-pipeline-".len() + 5);
    assert!(name.chars().all(|c| c.is_ascii_lowercase() || c.is_ascii_digit() || c == '-'));
}

#[test]
fn parallelism_is_capped_by_the_datum_count() {
    assert_eq!(capped_parallelism(10, 3), 3);
    assert_eq!(capped_parallelism(2, 3), 2);
    assert_eq!(capped_parallelism(4, 4), 4);
}
