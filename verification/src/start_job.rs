//! Starting and retrying jobs: plan the datums, persist the job with its
//! datums and input files in one transaction, and hand back the job so the
//! caller can launch the cluster workload. A failure to launch does not roll
//! back the rows: the babysitter eventually marks such a job as vanished.

use vstd::prelude::*;

use crate::datum::{new_datum_row, Datum, DatumView};
use crate::error::Error;
use crate::ids::fresh_uuid;
use crate::input_file::{InputFile, InputFileView, NewInputFile, NewInputFileView};
use crate::inputs::{atom_count, input_to_datums, spec_plan, spec_plan_ok, spec_tagged_files};
use crate::job::{Job, NewJob};
use crate::kubernetes::{is_ascii_alphanumeric_char, resource_tag};
use crate::pipeline::PipelineSpec;
use crate::state::{has_job, input_files_of, job_index_of, State};
use crate::status::Status;
use crate::text::{clone_string_vec, lower_of, lowercase, push_char};

verus! {

/// The parallelism of a retried job: the original parallelism, capped at
/// the number of datums that will actually be re-run.
pub fn capped_parallelism(constant: u32, datum_count: usize) -> (r: u32)
    ensures
        r == if (datum_count as nat) < (constant as nat) {
            datum_count as nat
        } else {
            constant as nat
        },
{
    if datum_count < constant as usize {
        datum_count as u32
    } else {
        constant
    }
}

/// `s` with every underscore replaced by a dash.
pub open spec fn spec_replace_underscores(s: Seq<char>) -> Seq<char> {
    Seq::new(
        s.len(),
        |i: int|
            if s[i] == '_' {
                '-'
            } else {
                s[i]
            },
    )
}

/// A five-character random tag of ASCII letters and digits.
pub open spec fn is_resource_tag(tag: Seq<char>) -> bool {
    tag.len() == 5 && forall|i: int|
        0 <= i < tag.len() ==> is_ascii_alphanumeric_char(#[trigger] tag[i])
}

/// Generate a unique name for a job: the pipeline name and a random tag,
/// with underscores dashed and the whole name lowercased, so that the result
/// is a legal DNS name component whenever the pipeline name is reasonable.
pub fn unique_kubernetes_job_name(pipeline_name: &str) -> (r: String)
    ensures
        exists|tag: Seq<char>|
            #[trigger] is_resource_tag(tag) && r@ == lower_of(
                spec_replace_underscores(pipeline_name@ + "-"@ + tag),
            ),
{
    let tag = resource_tag();
    let mut combined = pipeline_name.to_owned();
    combined.append("-");
    combined.append(tag.as_str());
    let ghost raw = combined@;
    let mut dashed = String::new();
    let len = combined.as_str().unicode_len();
    let mut i: usize = 0;
    while i < len
        invariant
            0 <= i <= len,
            len == raw.len(),
            combined@ == raw,
            dashed@ == spec_replace_underscores(raw).take(i as int),
        decreases len - i,
    {
        let c = combined.as_str().get_char(i);
        if c == '_' {
            push_char(&mut dashed, '-');
        } else {
            push_char(&mut dashed, c);
        }
        proof {
            assert(dashed@ =~= spec_replace_underscores(raw).take(i + 1));
        }
        i += 1;
    }
    proof {
        assert(spec_replace_underscores(raw).take(len as int) =~= spec_replace_underscores(raw));
    }
    let r = lowercase(dashed.as_str());
    proof {
        assert(is_resource_tag(tag@) && r@ == lower_of(
            spec_replace_underscores(pipeline_name@ + "-"@ + tag@),
        ));
    }
    r
}

/// The new-datum records that produced a slice of freshly inserted datum
/// rows: the ids the rows carry, owned by the given job, with each row's own
/// retry cap.
pub open spec fn spec_datums_as_new(
    datums: Seq<DatumView>,
    from: int,
    count: int,
    job_id: u128,
) -> Seq<crate::datum::NewDatum> {
    Seq::new(
        count as nat,
        |k: int|
            crate::datum::NewDatum {
                id: datums[from + k].id,
                job_id,
                maximum_allowed_run_count: datums[from + k].maximum_allowed_run_count as i32,
            },
    )
}

/// Run a new job: mint its id and unique name, persist the job row, the
/// planned datums and their input files as one transaction, and return the
/// job. The caller then launches the cluster workload.
pub fn run_job(
    spec: &PipelineSpec,
    spec_json: &String,
    maximum_allowed_run_count: i32,
    listings: &Vec<Vec<String>>,
    now: i64,
    state: &mut State,
) -> (r: Result<Job, Error>)
    requires
        old(state)@.wf(),
        0 <= now,
        1 <= maximum_allowed_run_count,
        listings@.len() == atom_count(spec.input),
    ensures
        final(state)@.wf(),
        ({
            let s0 = old(state)@;
            let plan = spec_plan(spec.input, listings.deep_view());
            match r {
                Ok(job) => {
                    &&& spec_plan_ok(spec.input, listings.deep_view())
                    &&& final(state)@.jobs == s0.jobs.push(job@)
                    &&& job@.status == Status::Running
                    &&& job@.created_at == now as int
                    &&& job@.updated_at == now as int
                    &&& job@.pipeline_spec == spec_json@
                    &&& job@.command == spec.transform.cmd.deep_view()
                    &&& job@.egress_uri == spec.egress.uri@
                    &&& exists|tag: Seq<char>|
                        #[trigger] is_resource_tag(tag) && job@.job_name == lower_of(
                            spec_replace_underscores(spec.pipeline.name@ + "-"@ + tag),
                        )
                    &&& final(state)@.datums.len() == s0.datums.len() + plan.len()
                    &&& final(state)@.datums.subrange(0, s0.datums.len() as int) == s0.datums
                    &&& forall|k: int|
                        0 <= k < plan.len() ==> {
                            let nd = #[trigger] final(state)@.datums[s0.datums.len() + k];
                            nd == new_datum_row(
                                crate::datum::NewDatum {
                                    id: nd.id,
                                    job_id: job@.id,
                                    maximum_allowed_run_count,
                                },
                                now as int,
                            )
                        }
                    &&& ({
                        let tagged = spec_tagged_files(
                            plan,
                            spec_datums_as_new(
                                final(state)@.datums,
                                s0.datums.len() as int,
                                plan.len() as int,
                                job@.id,
                            ),
                            job@.id,
                        );
                        &&& final(state)@.input_files.len() == s0.input_files.len() + tagged.len()
                        &&& final(state)@.input_files.subrange(0, s0.input_files.len() as int)
                            == s0.input_files
                        &&& forall|k: int|
                            0 <= k < tagged.len() ==> {
                                let f = #[trigger] final(state)@.input_files[s0.input_files.len()
                                    + k];
                                &&& f.datum_id == tagged[k].datum_id
                                &&& f.uri == tagged[k].uri
                                &&& f.local_path == tagged[k].local_path
                                &&& f.job_id == tagged[k].job_id
                                &&& f.created_at == now as int
                            }
                    })
                    &&& final(state)@.output_files == s0.output_files
                },
                Err(e) => final(state)@ == s0 && (if !spec_plan_ok(
                    spec.input,
                    listings.deep_view(),
                ) {
                    e == Error::NoSlashInUri || e == Error::UriEndsWithSlash
                } else {
                    e == Error::DuplicateId || e == Error::DuplicateJobName
                }),
            }
        }),
{
    let ghost s0 = old(state)@;
    // Build the job.
    let job_id = fresh_uuid();
    let job_name = unique_kubernetes_job_name(spec.pipeline.name.as_str());
    let new_job = NewJob {
        id: job_id,
        pipeline_spec: spec_json.clone(),
        job_name,
        command: clone_string_vec(&spec.transform.cmd),
        egress_uri: spec.egress.uri.clone(),
    };
    proof {
        assert(new_job.command.deep_view() =~= spec.transform.cmd.deep_view());
    }
    // Get the datums and input files.
    let (new_datums, new_input_files) = match input_to_datums(
        job_id,
        maximum_allowed_run_count,
        &spec.input,
        listings,
    ) {
        Ok(out) => out,
        Err(e) => {
            return Err(e);
        },
    };
    // Insert everything into the store, in one transaction: a conflict on
    // any row rolls the whole insertion back.
    let jobs_before = state.jobs.len();
    let datums_before = state.datums.len();
    let job = match new_job.insert(now, state) {
        Ok(job) => job,
        Err(e) => {
            return Err(e);
        },
    };
    match crate::datum::NewDatum::insert_all(&new_datums, now, state) {
        Ok(()) => {},
        Err(e) => {
            state.rollback_appends(jobs_before, datums_before);
            proof {
                assert(state@.jobs =~= s0.jobs);
                assert(state@.datums =~= s0.datums);
                assert(state@ == s0);
            }
            return Err(e);
        },
    }
    match NewInputFile::insert_all(&new_input_files, now, state) {
        Ok(()) => {},
        Err(e) => {
            state.rollback_appends(jobs_before, datums_before);
            proof {
                assert(state@.jobs =~= s0.jobs);
                assert(state@.datums =~= s0.datums);
                assert(state@ == s0);
            }
            return Err(e);
        },
    }
    proof {
        let plan = spec_plan(spec.input, listings.deep_view());
        let nds = spec_datums_as_new(
            state@.datums,
            s0.datums.len() as int,
            plan.len() as int,
            job@.id,
        );
        assert(state@.datums.subrange(0, s0.datums.len() as int) =~= s0.datums);
        assert forall|k: int| 0 <= k < plan.len() implies #[trigger] nds[k] == new_datums@[k] by {
            assert(state@.datums[s0.datums.len() + k] == new_datum_row(
                new_datums@[k],
                now as int,
            ));
        }
        assert(nds =~= new_datums@);
        crate::inputs::lemma_tagged_prefix_agree(
            plan,
            new_datums@,
            nds,
            job@.id,
            plan.len() as int,
        );
        assert forall|k: int|
            0 <= k < spec_tagged_files(plan, nds, job@.id).len() implies #[trigger] new_input_files@[k]@
            == spec_tagged_files(plan, nds, job@.id)[k] by {
            assert(new_input_files@.map_values(|f: NewInputFile| f@)[k] == new_input_files@[k]@);
        }
    }
    Ok(job)
}

/// One datum's input files, re-tagged for the datum and job that replace it.
pub open spec fn spec_retag_one(
    files: Seq<InputFileView>,
    datum_id: u128,
    job_id: u128,
) -> Seq<NewInputFileView> {
    files.map_values(
        |f: InputFileView|
            NewInputFileView { datum_id, uri: f.uri, local_path: f.local_path, job_id },
    )
}

/// The input files of the first `k` error datums, each group re-tagged with
/// the id of the fresh datum that replaces it.
pub open spec fn spec_retag_prefix(
    files: Seq<InputFileView>,
    errs: Seq<DatumView>,
    ids: Seq<u128>,
    job_id: u128,
    k: int,
) -> Seq<NewInputFileView>
    decreases k,
{
    if k <= 0 {
        Seq::empty()
    } else {
        spec_retag_prefix(files, errs, ids, job_id, k - 1) + spec_retag_one(
            input_files_of(files, errs[k - 1].id),
            ids[k - 1],
            job_id,
        )
    }
}

/// The re-tagged prefix reads only the first `k` fresh ids.
proof fn lemma_retag_prefix_agree(
    files: Seq<InputFileView>,
    errs: Seq<DatumView>,
    ids1: Seq<u128>,
    ids2: Seq<u128>,
    job_id: u128,
    k: int,
)
    requires
        forall|j: int| 0 <= j < k ==> ids1[j] == ids2[j],
    ensures
        spec_retag_prefix(files, errs, ids1, job_id, k) == spec_retag_prefix(
            files,
            errs,
            ids2,
            job_id,
            k,
        ),
    decreases k,
{
    if k > 0 {
        lemma_retag_prefix_agree(files, errs, ids1, ids2, job_id, k - 1);
    }
}

/// Retry a job that has failed: create a new job with the same retained
/// pipeline spec, command and egress, and clone each failed datum and its
/// input files into the new job; successful datums are not re-run. The
/// caller then launches the new cluster workload.
pub fn retry_job(job: &Job, pipeline_name: &str, now: i64, state: &mut State) -> (r: Result<
    Job,
    Error,
>)
    requires
        old(state)@.wf(),
        0 <= now,
    ensures
        final(state)@.wf(),
        ({
            let s0 = old(state)@;
            match r {
                Ok(new_job) => has_job(s0.jobs, job.id) && ({
                    let orig = s0.jobs[job_index_of(s0.jobs, job.id)];
                    let errs = s0.datums.filter(
                        |d: DatumView| d.job_id == job.id && d.status == Status::Error,
                    );
                    &&& orig.status == Status::Error
                    &&& final(state)@.jobs == s0.jobs.push(new_job@)
                    &&& new_job@.status == Status::Running
                    &&& new_job@.created_at == now as int
                    &&& new_job@.updated_at == now as int
                    &&& new_job@.pipeline_spec == orig.pipeline_spec
                    &&& new_job@.command == orig.command
                    &&& new_job@.egress_uri == orig.egress_uri
                    &&& exists|tag: Seq<char>|
                        #[trigger] is_resource_tag(tag) && new_job@.job_name == lower_of(
                            spec_replace_underscores(pipeline_name@ + "-"@ + tag),
                        )
                    &&& final(state)@.datums.len() == s0.datums.len() + errs.len()
                    &&& final(state)@.datums.subrange(0, s0.datums.len() as int) == s0.datums
                    &&& forall|k: int|
                        0 <= k < errs.len() ==> {
                            let nd = #[trigger] final(state)@.datums[s0.datums.len() + k];
                            nd == new_datum_row(
                                crate::datum::NewDatum {
                                    id: nd.id,
                                    job_id: new_job@.id,
                                    maximum_allowed_run_count: errs[k].maximum_allowed_run_count as i32,
                                },
                                now as int,
                            )
                        }
                    &&& ({
                        let retagged = spec_retag_prefix(
                            s0.input_files,
                            errs,
                            Seq::new(
                                errs.len(),
                                |k: int| final(state)@.datums[s0.datums.len() + k].id,
                            ),
                            new_job@.id,
                            errs.len() as int,
                        );
                        &&& final(state)@.input_files.len() == s0.input_files.len()
                            + retagged.len()
                        &&& final(state)@.input_files.subrange(0, s0.input_files.len() as int)
                            == s0.input_files
                        &&& forall|k: int|
                            0 <= k < retagged.len() ==> {
                                let f = #[trigger] final(state)@.input_files[s0.input_files.len()
                                    + k];
                                &&& f.datum_id == retagged[k].datum_id
                                &&& f.uri == retagged[k].uri
                                &&& f.local_path == retagged[k].local_path
                                &&& f.job_id == retagged[k].job_id
                                &&& f.created_at == now as int
                            }
                    })
                    &&& final(state)@.output_files == s0.output_files
                }),
                Err(e) => final(state)@ == s0 && (if !has_job(s0.jobs, job.id) {
                    e == Error::NotFound
                } else if s0.jobs[job_index_of(s0.jobs, job.id)].status != Status::Error {
                    e == Error::NotRetryable
                } else {
                    e == Error::DuplicateId || e == Error::DuplicateJobName
                }),
            }
        }),
{
    let ghost s0 = old(state)@;
    // Load the original job under its row lock; only failed jobs may be
    // retried.
    let job_row = match Job::find(job.id, state) {
        Ok(j) => j,
        Err(e) => {
            return Err(e);
        },
    };
    if !(job_row.status == Status::Error) {
        return Err(Error::NotRetryable);
    }
    // Load the failed datums and their input files.
    let error_datums = job_row.datums_with_status(Status::Error, state);
    let grouped = InputFile::for_datums(&error_datums, state);
    let ghost errs = s0.datums.filter(
        |d: DatumView| d.job_id == job.id && d.status == Status::Error,
    );
    proof {
        assert(job_row.id == job.id);
        assert(errs == error_datums@.map_values(|d: Datum| d@));
        crate::state::lemma_datum_filter_members(
            s0.datums,
            |d: DatumView| d.job_id == job.id && d.status == Status::Error,
        );
    }
    // Create the new job record.
    let job_name = unique_kubernetes_job_name(pipeline_name);
    let new_job_rec = NewJob {
        id: fresh_uuid(),
        pipeline_spec: job_row.pipeline_spec.clone(),
        job_name,
        command: clone_string_vec(&job_row.command),
        egress_uri: job_row.egress_uri.clone(),
    };
    proof {
        assert(new_job_rec.command.deep_view() =~= job_row.command.deep_view());
    }
    let jobs_before = state.jobs.len();
    let datums_before = state.datums.len();
    let inserted = match new_job_rec.insert(now, state) {
        Ok(j) => j,
        Err(e) => {
            return Err(e);
        },
    };
    // Create the new datums and input files: one fresh datum per failed
    // datum, its input files cloned over.
    let mut new_datums: Vec<crate::datum::NewDatum> = Vec::new();
    let mut new_input_files: Vec<NewInputFile> = Vec::new();
    let mut k: usize = 0;
    while k < error_datums.len()
        invariant
            0 <= k <= error_datums@.len(),
            errs == error_datums@.map_values(|d: Datum| d@),
            grouped@.len() == error_datums@.len(),
            forall|j: int|
                0 <= j < error_datums@.len() ==> (#[trigger] grouped@[j])@.map_values(
                    |f: InputFile| f@,
                ) == input_files_of(s0.input_files, error_datums@[j].id),
            forall|j: int|
                0 <= j < errs.len() ==> s0.datums.contains(#[trigger] errs[j]),
            s0.wf(),
            new_datums@.len() == k,
            forall|j: int|
                0 <= j < k ==> {
                    let nd = #[trigger] new_datums@[j];
                    nd.job_id == inserted.id && nd.maximum_allowed_run_count as int == errs[
                        j
                    ].maximum_allowed_run_count
                },
            new_input_files@.map_values(|f: NewInputFile| f@) == spec_retag_prefix(
                s0.input_files,
                errs,
                new_datums@.map_values(|nd: crate::datum::NewDatum| nd.id),
                inserted.id,
                k as int,
            ),
        decreases error_datums@.len() - k,
    {
        let datum_id = fresh_uuid();
        let ghost old_ids = new_datums@.map_values(|nd: crate::datum::NewDatum| nd.id);
        proof {
            assert(errs[k as int] == error_datums@[k as int]@);
            assert(s0.datums.contains(errs[k as int]));
            let w = choose|w: int|
                0 <= w < s0.datums.len() && s0.datums[w] == errs[k as int];
            assert(s0.datums[w].wf());
        }
        new_datums.push(
            crate::datum::NewDatum {
                id: datum_id,
                job_id: inserted.id,
                maximum_allowed_run_count: error_datums[k].maximum_allowed_run_count,
            },
        );
        let ghost ids = new_datums@.map_values(|nd: crate::datum::NewDatum| nd.id);
        proof {
            lemma_retag_prefix_agree(s0.input_files, errs, old_ids, ids, inserted.id, k as int);
        }
        let ghost files_of_k = input_files_of(s0.input_files, errs[k as int].id);
        let files_k = &grouped[k];
        let ghost before_files = new_input_files@;
        let mut j: usize = 0;
        while j < files_k.len()
            invariant
                0 <= j <= files_k@.len(),
                files_k@.map_values(|f: InputFile| f@) == files_of_k,
                new_input_files@.len() == before_files.len() + j,
                forall|t: int| 0 <= t < before_files.len() ==> new_input_files@[t] == before_files[t],
                forall|t: int|
                    0 <= t < j ==> (#[trigger] new_input_files@[before_files.len() + t])@
                        == spec_retag_one(files_of_k, datum_id, inserted.id)[t],
            decreases files_k@.len() - j,
        {
            let f = &files_k[j];
            new_input_files.push(
                NewInputFile {
                    datum_id,
                    uri: f.uri.clone(),
                    local_path: f.local_path.clone(),
                    job_id: inserted.id,
                },
            );
            proof {
                assert(files_k@[j as int]@ == files_of_k[j as int]);
                assert(spec_retag_one(files_of_k, datum_id, inserted.id)[j as int]
                    == (NewInputFileView {
                    datum_id,
                    uri: files_of_k[j as int].uri,
                    local_path: files_of_k[j as int].local_path,
                    job_id: inserted.id,
                }));
            }
            j += 1;
        }
        proof {
            assert(ids[k as int] == datum_id);
            assert(files_of_k.len() == files_k@.len());
            assert(before_files.map_values(|f: NewInputFile| f@) == spec_retag_prefix(
                s0.input_files,
                errs,
                ids,
                inserted.id,
                k as int,
            ));
            assert(spec_retag_prefix(s0.input_files, errs, ids, inserted.id, k + 1)
                == spec_retag_prefix(s0.input_files, errs, ids, inserted.id, k as int)
                + spec_retag_one(files_of_k, datum_id, inserted.id));
            assert forall|t: int|
                0 <= t < new_input_files@.len() implies (#[trigger] new_input_files@[t])@
                == spec_retag_prefix(s0.input_files, errs, ids, inserted.id, k + 1)[t] by {
                if t < before_files.len() {
                    assert(before_files.map_values(|f: NewInputFile| f@)[t] == before_files[t]@);
                    assert(new_input_files@[t] == before_files[t]);
                } else {
                    let t2 = t - before_files.len();
                    assert((new_input_files@[before_files.len() + t2])@ == spec_retag_one(
                        files_of_k,
                        datum_id,
                        inserted.id,
                    )[t2]);
                }
            }
            assert forall|t: int|
                0 <= t < new_input_files@.len() implies new_input_files@.map_values(
                |f: NewInputFile| f@,
            )[t] == (#[trigger] new_input_files@[t])@ by {}
            assert(new_input_files@.map_values(|f: NewInputFile| f@) =~= spec_retag_prefix(
                s0.input_files,
                errs,
                ids,
                inserted.id,
                k + 1,
            ));
        }
        k += 1;
    }
    // Persist everything; a conflict rolls the whole transaction back.
    match crate::datum::NewDatum::insert_all(&new_datums, now, state) {
        Ok(()) => {},
        Err(e) => {
            state.rollback_appends(jobs_before, datums_before);
            proof {
                assert(state@.jobs =~= s0.jobs);
                assert(state@.datums =~= s0.datums);
                assert(state@ == s0);
            }
            return Err(e);
        },
    }
    match NewInputFile::insert_all(&new_input_files, now, state) {
        Ok(()) => {},
        Err(e) => {
            state.rollback_appends(jobs_before, datums_before);
            proof {
                assert(state@.jobs =~= s0.jobs);
                assert(state@.datums =~= s0.datums);
                assert(state@ == s0);
            }
            return Err(e);
        },
    }
    proof {
        let final_ids = Seq::new(errs.len(), |t: int| state@.datums[s0.datums.len() + t].id);
        let ids = new_datums@.map_values(|nd: crate::datum::NewDatum| nd.id);
        assert(state@.datums.subrange(0, s0.datums.len() as int) =~= s0.datums);
        assert forall|t: int| 0 <= t < errs.len() implies #[trigger] final_ids[t] == ids[t] by {
            assert(state@.datums[s0.datums.len() + t] == new_datum_row(
                new_datums@[t],
                now as int,
            ));
        }
        lemma_retag_prefix_agree(
            s0.input_files,
            errs,
            ids,
            final_ids,
            inserted.id,
            errs.len() as int,
        );
        assert forall|t: int|
            0 <= t < spec_retag_prefix(
                s0.input_files,
                errs,
                ids,
                inserted.id,
                errs.len() as int,
            ).len() implies #[trigger] new_input_files@[t]@ == spec_retag_prefix(
            s0.input_files,
            errs,
            ids,
            inserted.id,
            errs.len() as int,
        )[t] by {
            assert(new_input_files@.map_values(|f: NewInputFile| f@)[t] == new_input_files@[t]@);
        }
    }
    Ok(inserted)
}

} // verus!
