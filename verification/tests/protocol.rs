//! Tests for the persistent store and the datum reservation protocol.

use falconeri::datum::{Datum, NewDatum};
use falconeri::error::Error;
use falconeri::input_file::NewInputFile;
use falconeri::job::{Job, NewJob};
use falconeri::output_file::{NewOutputFile, OutputFile};
use falconeri::rest_api::{patch_datum, patch_output_files, DatumPatch, OutputFilePatch};
use falconeri::state::State;
use falconeri::status::Status;

fn new_job(id: u128, name: &str) -> NewJob {
    NewJob {
        id,
        pipeline_spec: "{}".to_string(),
        job_name: name.to_string(),
        command: vec!["echo".to_string(), "hi".to_string()],
        egress_uri: "gs://bucket/out/".to_string(),
    }
}

/// A store holding one running job with `n` ready datums.
fn job_with_datums(job_id: u128, n: u128, max_runs: i32) -> State {
    let mut state = State::new();
    new_job(job_id, "job-abcde").insert(1, &mut state).unwrap();
    let datums: Vec<NewDatum> = (0..n)
        .map(|k| NewDatum {
            id: 100 + k,
            job_id,
            maximum_allowed_run_count: max_runs,
        })
        .collect();
    NewDatum::insert_all(&datums, 1, &mut state).unwrap();
    let files: Vec<NewInputFile> = (0..n)
        .map(|k| NewInputFile {
            datum_id: 100 + k,
            uri: format!("gs://bucket/in/f{}", k),
            local_path: format!("/pfs/in/f{}", k),
            job_id,
        })
        .collect();
    NewInputFile::insert_all(&files, 1, &mut state).unwrap();
    state
}

fn done_patch(output: &str) -> DatumPatch {
    DatumPatch {
        status: Status::Done,
        output: output.to_string(),
        error_message: None,
        backtrace: None,
    }
}

fn error_patch(output: &str, message: &str) -> DatumPatch {
    DatumPatch {
        status: Status::Error,
        output: output.to_string(),
        error_message: Some(message.to_string()),
        backtrace: Some("(no backtrace)".to_string()),
    }
}

#[test]
fn insert_rejects_duplicate_job_name() {
    let mut state = State::new();
    new_job(1, "same-name").insert(1, &mut state).unwrap();
    assert_eq!(new_job(2, "same-name").insert(1, &mut state).err(), Some(Error::DuplicateJobName));
    assert_eq!(new_job(1, "other-name").insert(1, &mut state).err(), Some(Error::DuplicateId));
}

#[test]
fn insert_rejects_duplicate_datum_id() {
    let mut state = job_with_datums(1, 2, 1);
    let dup = vec![NewDatum { id: 100, job_id: 1, maximum_allowed_run_count: 1 }];
    assert_eq!(NewDatum::insert_all(&dup, 2, &mut state).err(), Some(Error::DuplicateId));
    // The failed insert left the store unchanged.
    assert_eq!(state.datums.len(), 2);
}

#[test]
fn find_missing_job_fails() {
    let state = State::new();
    assert!(matches!(Job::find(42, &state), Err(Error::NotFound)));
    assert!(matches!(Datum::find(42, &state), Err(Error::NotFound)));
    assert!(matches!(OutputFile::find(42, &state), Err(Error::NotFound)));
}

#[test]
fn reserve_hands_out_distinct_datums_then_none() {
    let mut state = job_with_datums(1, 2, 1);
    let job = Job::find(1, &state).unwrap();
    let (d1, f1) = job.reserve_next_datum("node-a", "pod-a", 2, &mut state).unwrap();
    let (d2, f2) = job.reserve_next_datum("node-b", "pod-b", 3, &mut state).unwrap();
    assert_ne!(d1.id, d2.id);
    assert_eq!(d1.status, Status::Running);
    assert_eq!(d1.node_name.as_deref(), Some("node-a"));
    assert_eq!(d1.pod_name.as_deref(), Some("pod-a"));
    assert_eq!(d1.attempted_run_count, 1);
    assert_eq!(f1.len(), 1);
    assert_eq!(f2.len(), 1);
    assert_ne!(f1[0].uri, f2[0].uri);
    // Both datums are out: a third worker gets nothing.
    assert!(job.reserve_next_datum("node-c", "pod-c", 4, &mut state).is_none());
}

#[test]
fn reserve_is_idempotent_under_lost_responses() {
    // Reserving twice from the same pod, before any patch, returns the same
    // datum and counts a single attempt.
    let mut state = job_with_datums(1, 2, 1);
    let job = Job::find(1, &state).unwrap();
    let (d1, _) = job.reserve_next_datum("node-a", "pod-a", 2, &mut state).unwrap();
    let (d2, files) = job.reserve_next_datum("node-a", "pod-a", 3, &mut state).unwrap();
    assert_eq!(d1.id, d2.id);
    assert_eq!(d2.attempted_run_count, 1);
    assert_eq!(files.len(), 1);
    // The recovery did not touch the row: the timestamp is the original one.
    assert_eq!(d2.updated_at, 2);
}

#[test]
fn job_becomes_done_when_all_datums_succeed() {
    let mut state = job_with_datums(1, 2, 1);
    let job = Job::find(1, &state).unwrap();
    let (d1, _) = job.reserve_next_datum("n", "pod-a", 2, &mut state).unwrap();
    let (d2, _) = job.reserve_next_datum("n", "pod-b", 2, &mut state).unwrap();
    let patched = patch_datum(d1.id, &done_patch("ok"), 3, &mut state).unwrap();
    assert_eq!(patched.status, Status::Done);
    assert_eq!(patched.output.as_deref(), Some("ok"));
    // One datum still running: the job stays running.
    assert_eq!(Job::find(1, &state).unwrap().status, Status::Running);
    patch_datum(d2.id, &done_patch("ok"), 4, &mut state).unwrap();
    assert_eq!(Job::find(1, &state).unwrap().status, Status::Done);
}

#[test]
fn job_becomes_error_when_retries_are_exhausted() {
    let mut state = job_with_datums(1, 1, 1);
    let job = Job::find(1, &state).unwrap();
    let (d, _) = job.reserve_next_datum("n", "p", 2, &mut state).unwrap();
    let patched = patch_datum(d.id, &error_patch("boom", "it broke"), 3, &mut state).unwrap();
    assert_eq!(patched.status, Status::Error);
    assert_eq!(patched.error_message.as_deref(), Some("it broke"));
    // One attempt allowed, one made: the job fails for good.
    assert_eq!(Job::find(1, &state).unwrap().status, Status::Error);
}

#[test]
fn job_stays_running_while_a_retry_is_available() {
    let mut state = job_with_datums(1, 1, 3);
    let job = Job::find(1, &state).unwrap();
    let (d, _) = job.reserve_next_datum("n", "p", 2, &mut state).unwrap();
    patch_datum(d.id, &error_patch("boom", "it broke"), 3, &mut state).unwrap();
    // The datum can be re-run, so the job is not settled.
    assert_eq!(Job::find(1, &state).unwrap().status, Status::Running);
}

#[test]
fn patch_datum_rejects_inconsistent_fields() {
    let mut state = job_with_datums(1, 1, 1);
    let bad = DatumPatch {
        status: Status::Done,
        output: "x".to_string(),
        error_message: Some("not allowed with done".to_string()),
        backtrace: None,
    };
    assert!(matches!(patch_datum(100, &bad, 2, &mut state), Err(Error::InvalidDatumPatch)));
    let also_bad = DatumPatch {
        status: Status::Ready,
        output: "x".to_string(),
        error_message: None,
        backtrace: None,
    };
    assert!(matches!(patch_datum(100, &also_bad, 2, &mut state), Err(Error::InvalidDatumPatch)));
}

#[test]
fn datum_status_counts_summarize_a_job() {
    let mut state = job_with_datums(1, 3, 2);
    let job = Job::find(1, &state).unwrap();
    let (d, _) = job.reserve_next_datum("n", "p", 2, &mut state).unwrap();
    patch_datum(d.id, &error_patch("out", "msg"), 3, &mut state).unwrap();
    let counts = job.datum_status_counts(&state);
    assert_eq!(counts.len(), 2);
    assert_eq!(counts[0].status, Status::Ready);
    assert_eq!(counts[0].count, 2);
    assert_eq!(counts[0].rerunable_count, 0);
    assert_eq!(counts[1].status, Status::Error);
    assert_eq!(counts[1].count, 1);
    assert_eq!(counts[1].rerunable_count, 1);
}

#[test]
fn inserts_with_chosen_ids_are_all_or_nothing() {
    let mut state = job_with_datums(1, 1, 1);
    // Fresh, distinct ids: every row lands, carrying its given id.
    let files = vec![
        NewInputFile {
            datum_id: 100,
            uri: "gs://b/in/x".to_string(),
            local_path: "/pfs/in/x".to_string(),
            job_id: 1,
        },
        NewInputFile {
            datum_id: 100,
            uri: "gs://b/in/y".to_string(),
            local_path: "/pfs/in/y".to_string(),
            job_id: 1,
        },
    ];
    let before = state.input_files.len();
    NewInputFile::insert_all_with_ids(&files, &vec![500, 501], 2, &mut state).unwrap();
    assert_eq!(state.input_files.len(), before + 2);
    assert_eq!(state.input_files[before].id, 500);
    assert_eq!(state.input_files[before + 1].id, 501);
    // A repeated id rejects the whole batch, unchanged.
    assert!(matches!(
        NewInputFile::insert_all_with_ids(&files, &vec![502, 502], 3, &mut state),
        Err(Error::DuplicateId)
    ));
    assert_eq!(state.input_files.len(), before + 2);
    // A taken id rejects the whole batch too.
    let out = vec![NewOutputFile { job_id: 1, datum_id: 100, uri: "gs://b/out/a".to_string() }];
    let created = NewOutputFile::insert_all_with_ids(&out, &vec![600], 4, &mut state).unwrap();
    assert_eq!(created[0].id, 600);
    assert!(matches!(
        NewOutputFile::insert_all_with_ids(&out, &vec![600], 5, &mut state),
        Err(Error::DuplicateId)
    ));
    assert_eq!(state.output_files.len(), 1);
}

#[test]
fn output_files_are_created_running_and_patched() {
    let mut state = job_with_datums(1, 1, 1);
    let new_files = vec![
        NewOutputFile { job_id: 1, datum_id: 100, uri: "gs://bucket/out/a".to_string() },
        NewOutputFile { job_id: 1, datum_id: 100, uri: "gs://bucket/out/b".to_string() },
    ];
    let created = NewOutputFile::insert_all(&new_files, 2, &mut state).unwrap();
    assert_eq!(created.len(), 2);
    assert_eq!(created[0].status, Status::Running);
    assert_eq!(created[0].uri, "gs://bucket/out/a");
    let patches = vec![
        OutputFilePatch { id: created[0].id, status: Status::Done },
        OutputFilePatch { id: created[1].id, status: Status::Error },
    ];
    patch_output_files(&patches, 3, &mut state).unwrap();
    assert_eq!(OutputFile::find(created[0].id, &state).unwrap().status, Status::Done);
    assert_eq!(OutputFile::find(created[1].id, &state).unwrap().status, Status::Error);
    // A patch with a status other than done or error rejects the batch.
    let bad = vec![OutputFilePatch { id: created[0].id, status: Status::Ready }];
    assert!(matches!(
        patch_output_files(&bad, 4, &mut state),
        Err(Error::InvalidOutputFilePatch)
    ));
}

#[test]
fn status_has_finished() {
    assert!(!Status::Ready.has_finished());
    assert!(!Status::Running.has_finished());
    assert!(Status::Done.has_finished());
    assert!(Status::Error.has_finished());
    assert!(Status::Canceled.has_finished());
    assert_eq!(Status::Running.name(), "running");
    assert_eq!(Status::Canceled.name(), "canceled");
}

#[test]
fn error_messages_name_the_failure() {
    assert_eq!(Error::NotFound.message(), "record not found");
    assert_eq!(Error::NotRetryable.message(), "can only retry jobs with status 'error'");
    assert_eq!(Error::UnsupportedScheme.message(), "cannot find storage backend for URI");
    assert_eq!(Error::MalformedS3Url.message(), "the S3 URL could not be parsed");
}
