//! Output files: records of the objects a worker intends to, or did, upload.

use vstd::prelude::*;

use crate::datum::Datum;
use crate::error::Error;
use crate::ids::fresh_uuid;
use crate::state::{
    has_output_file, lemma_output_filter_wf, lemma_output_files_wf_push,
    lemma_pin_output_file_index, lemma_take_full, output_file_index_of, State, StateView,
};
use crate::status::Status;

verus! {

/// An output file uploaded from a worker. The row is created with status
/// `running` before the upload begins, and patched afterwards.
#[derive(Debug)]
pub struct OutputFile {
    /// The unique ID of this file.
    pub id: u128,
    /// When we created this record (microseconds since the epoch).
    pub created_at: i64,
    /// When we last updated this record.
    pub updated_at: i64,
    /// The status of this record. This will be `running` while the file is
    /// being uploaded.
    pub status: Status,
    /// The job which created this file.
    pub job_id: u128,
    /// The datum which created this file.
    pub datum_id: u128,
    /// The URI to which we uploaded this file.
    pub uri: String,
}

/// The mathematical image of an `OutputFile`.
pub struct OutputFileView {
    /// The unique ID of this file.
    pub id: u128,
    /// When this record was created.
    pub created_at: int,
    /// When this record was last updated.
    pub updated_at: int,
    /// The status of this record.
    pub status: Status,
    /// The owning job.
    pub job_id: u128,
    /// The owning datum.
    pub datum_id: u128,
    /// The destination URI.
    pub uri: Seq<char>,
}

impl View for OutputFile {
    type V = OutputFileView;

    open spec fn view(&self) -> OutputFileView {
        OutputFileView {
            id: self.id,
            created_at: self.created_at as int,
            updated_at: self.updated_at as int,
            status: self.status,
            job_id: self.job_id,
            datum_id: self.datum_id,
            uri: self.uri@,
        }
    }
}

impl OutputFileView {
    /// The record invariant that every stored output file satisfies.
    pub open spec fn wf(self) -> bool {
        0 <= self.created_at <= i64::MAX && 0 <= self.updated_at <= i64::MAX
    }
}

impl OutputFile {
    /// An exact copy of this output file.
    pub fn duplicate(&self) -> (r: OutputFile)
        ensures
            r@ == self@,
    {
        OutputFile {
            id: self.id,
            created_at: self.created_at,
            updated_at: self.updated_at,
            status: self.status,
            job_id: self.job_id,
            datum_id: self.datum_id,
            uri: self.uri.clone(),
        }
    }
}

/// An output-file row after its upload was recorded as done or failed.
pub open spec fn patched_output(f: OutputFileView, status: Status, now: int) -> OutputFileView {
    OutputFileView { status, updated_at: now, ..f }
}

/// The output-file table after the rows with the given ids were patched.
pub open spec fn patch_output_by_ids(
    files: Seq<OutputFileView>,
    ids: Seq<u128>,
    status: Status,
    now: int,
) -> Seq<OutputFileView> {
    Seq::new(
        files.len(),
        |i: int|
            if ids.contains(files[i].id) {
                patched_output(files[i], status, now)
            } else {
                files[i]
            },
    )
}

/// The output-file table after the rows of one datum were patched.
pub open spec fn patch_output_by_datum(
    files: Seq<OutputFileView>,
    datum_id: u128,
    status: Status,
    now: int,
) -> Seq<OutputFileView> {
    Seq::new(
        files.len(),
        |i: int|
            if files[i].datum_id == datum_id {
                patched_output(files[i], status, now)
            } else {
                files[i]
            },
    )
}

/// Is `needle` one of the given ids?
fn contains_id(ids: &Vec<u128>, needle: u128) -> (r: bool)
    ensures
        r == ids@.contains(needle),
{
    let mut i: usize = 0;
    while i < ids.len()
        invariant
            0 <= i <= ids@.len(),
            forall|j: int| 0 <= j < i ==> ids@[j] != needle,
        decreases ids@.len() - i,
    {
        if ids[i] == needle {
            return true;
        }
        i += 1;
    }
    proof {
        assert(!ids@.contains(needle)) by {
            if ids@.contains(needle) {
                let w = choose|w: int| 0 <= w < ids@.len() && ids@[w] == needle;
                assert(ids@[w] != needle);
            }
        }
    }
    false
}

/// Set the status and timestamp of every output-file row whose id is in
/// `ids`.
fn patch_rows_by_ids(ids: &Vec<u128>, status: Status, now: i64, state: &mut State)
    requires
        old(state)@.wf(),
        0 <= now,
        status == Status::Done || status == Status::Error,
    ensures
        final(state)@.wf(),
        final(state)@ == (StateView {
            output_files: patch_output_by_ids(old(state)@.output_files, ids@, status, now as int),
            ..old(state)@
        }),
{
    let ghost files0 = old(state)@.output_files;
    let ghost target = patch_output_by_ids(files0, ids@, status, now as int);
    let mut i: usize = 0;
    let n = state.output_files.len();
    while i < n
        invariant
            0 <= i <= n == state@.output_files.len(),
            old(state)@.wf(),
            0 <= now,
            files0 == old(state)@.output_files,
            files0.len() == n,
            target == patch_output_by_ids(files0, ids@, status, now as int),
            state@.jobs == old(state)@.jobs,
            state@.datums == old(state)@.datums,
            state@.input_files == old(state)@.input_files,
            forall|t: int| 0 <= t < i ==> state@.output_files[t] == target[t],
            forall|t: int| i <= t < n ==> state@.output_files[t] == files0[t],
        decreases n - i,
    {
        proof {
            assert(state@.output_files[i as int] == files0[i as int]);
        }
        let row_id = state.output_files[i].id;
        if contains_id(ids, row_id) {
            let row = &state.output_files[i];
            let updated = OutputFile {
                id: row.id,
                created_at: row.created_at,
                updated_at: now,
                status,
                job_id: row.job_id,
                datum_id: row.datum_id,
                uri: row.uri.clone(),
            };
            proof {
                assert(updated@ == patched_output(files0[i as int], status, now as int));
                assert(patch_output_by_ids(files0, ids@, status, now as int)[i as int]
                    == updated@);
                assert(target[i as int] == updated@);
            }
            state.output_files.set(i, updated);
            proof {
                assert(state@.output_files[i as int] == updated@);
            }
        } else {
            proof {
                assert(!ids@.contains(files0[i as int].id));
                assert(patch_output_by_ids(files0, ids@, status, now as int)[i as int]
                    == files0[i as int]);
                assert(target[i as int] == files0[i as int]);
            }
        }
        i += 1;
    }
    proof {
        assert(state@.output_files =~= patch_output_by_ids(files0, ids@, status, now as int));
        assert(state@ == (StateView {
            output_files: patch_output_by_ids(files0, ids@, status, now as int),
            ..old(state)@
        }));
        assert forall|k: int, j: int|
            #![trigger state@.output_files[k], state@.output_files[j]]
            0 <= k < state@.output_files.len() && 0 <= j < state@.output_files.len()
                && state@.output_files[k].id == state@.output_files[j].id implies k == j by {
            assert(files0[k].id == files0[j].id);
        }
    }
}

/// Set the status and timestamp of every output-file row of one datum.
fn patch_rows_by_datum(datum_id: u128, status: Status, now: i64, state: &mut State)
    requires
        old(state)@.wf(),
        0 <= now,
        status == Status::Done || status == Status::Error,
    ensures
        final(state)@.wf(),
        final(state)@ == (StateView {
            output_files: patch_output_by_datum(
                old(state)@.output_files,
                datum_id,
                status,
                now as int,
            ),
            ..old(state)@
        }),
{
    let ghost files0 = old(state)@.output_files;
    let ghost target = patch_output_by_datum(files0, datum_id, status, now as int);
    let mut i: usize = 0;
    let n = state.output_files.len();
    while i < n
        invariant
            0 <= i <= n == state@.output_files.len(),
            old(state)@.wf(),
            0 <= now,
            files0 == old(state)@.output_files,
            files0.len() == n,
            target == patch_output_by_datum(files0, datum_id, status, now as int),
            state@.jobs == old(state)@.jobs,
            state@.datums == old(state)@.datums,
            state@.input_files == old(state)@.input_files,
            forall|t: int| 0 <= t < i ==> state@.output_files[t] == target[t],
            forall|t: int| i <= t < n ==> state@.output_files[t] == files0[t],
        decreases n - i,
    {
        proof {
            assert(state@.output_files[i as int] == files0[i as int]);
        }
        if state.output_files[i].datum_id == datum_id {
            let row = &state.output_files[i];
            let updated = OutputFile {
                id: row.id,
                created_at: row.created_at,
                updated_at: now,
                status,
                job_id: row.job_id,
                datum_id: row.datum_id,
                uri: row.uri.clone(),
            };
            proof {
                assert(updated@ == patched_output(files0[i as int], status, now as int));
                assert(patch_output_by_datum(files0, datum_id, status, now as int)[i as int]
                    == updated@);
                assert(target[i as int] == updated@);
            }
            state.output_files.set(i, updated);
            proof {
                assert(state@.output_files[i as int] == updated@);
            }
        } else {
            proof {
                assert(patch_output_by_datum(files0, datum_id, status, now as int)[i as int]
                    == files0[i as int]);
                assert(target[i as int] == files0[i as int]);
            }
        }
        i += 1;
    }
    proof {
        assert(state@.output_files =~= patch_output_by_datum(
            files0,
            datum_id,
            status,
            now as int,
        ));
        assert(state@ == (StateView {
            output_files: patch_output_by_datum(files0, datum_id, status, now as int),
            ..old(state)@
        }));
        assert forall|k: int, j: int|
            #![trigger state@.output_files[k], state@.output_files[j]]
            0 <= k < state@.output_files.len() && 0 <= j < state@.output_files.len()
                && state@.output_files[k].id == state@.output_files[j].id implies k == j by {
            assert(files0[k].id == files0[j].id);
        }
    }
}

impl OutputFile {
    /// Find an output file by ID.
    pub fn find(id: u128, state: &State) -> (r: Result<OutputFile, Error>)
        requires
            state@.wf(),
        ensures
            match r {
                Ok(f) => has_output_file(state@.output_files, id) && f@ == state@.output_files[
                    output_file_index_of(state@.output_files, id)
                ],
                Err(e) => e == Error::NotFound && !has_output_file(state@.output_files, id),
            },
    {
        match state.find_output_file_index(id) {
            Some(i) => {
                proof {
                    lemma_pin_output_file_index(state@.output_files, i as int, id);
                }
                Ok(state.output_files[i].duplicate())
            },
            None => Err(Error::NotFound),
        }
    }

    /// Delete all the output files belonging to one datum, so that a fresh
    /// attempt can create new ones.
    pub fn delete_for_datum(datum: &Datum, state: &mut State)
        requires
            old(state)@.wf(),
        ensures
            final(state)@.wf(),
            final(state)@ == (StateView {
                output_files: old(state)@.output_files.filter(
                    |f: OutputFileView| f.datum_id != datum.id,
                ),
                ..old(state)@
            }),
    {
        let ghost files0 = old(state)@.output_files;
        let ghost keep = |f: OutputFileView| f.datum_id != datum.id;
        let mut kept: Vec<OutputFile> = Vec::new();
        let mut i: usize = 0;
        proof {
            reveal(Seq::filter);
        }
        while i < state.output_files.len()
            invariant
                0 <= i <= state@.output_files.len(),
                state@ == old(state)@,
                files0 == old(state)@.output_files,
                keep == (|f: OutputFileView| f.datum_id != datum.id),
                kept@.map_values(|f: OutputFile| f@) == files0.take(i as int).filter(keep),
            decreases state@.output_files.len() - i,
        {
            proof {
                crate::state::lemma_filter_take_step(files0, keep, i as int);
            }
            let f = &state.output_files[i];
            if !(f.datum_id == datum.id) {
                let ghost prior = kept@;
                kept.push(f.duplicate());
                proof {
                    assert(kept@.map_values(|f: OutputFile| f@) =~= prior.map_values(
                        |f: OutputFile| f@,
                    ).push(files0[i as int]));
                }
            }
            i += 1;
        }
        proof {
            lemma_take_full(files0);
            lemma_output_filter_wf(files0, keep);
        }
        state.output_files = kept;
        proof {
            assert(state@.output_files =~= files0.filter(
                |f: OutputFileView| f.datum_id != datum.id,
            ));
        }
    }

    /// Mark the output files with the given ids as having been successfully
    /// uploaded.
    pub fn mark_ids_as_done(ids: &Vec<u128>, now: i64, state: &mut State)
        requires
            old(state)@.wf(),
            0 <= now,
        ensures
            final(state)@.wf(),
            final(state)@ == (StateView {
                output_files: patch_output_by_ids(
                    old(state)@.output_files,
                    ids@,
                    Status::Done,
                    now as int,
                ),
                ..old(state)@
            }),
    {
        patch_rows_by_ids(ids, Status::Done, now, state);
    }

    /// Mark the output files with the given ids as having failed to upload.
    pub fn mark_ids_as_error(ids: &Vec<u128>, now: i64, state: &mut State)
        requires
            old(state)@.wf(),
            0 <= now,
        ensures
            final(state)@.wf(),
            final(state)@ == (StateView {
                output_files: patch_output_by_ids(
                    old(state)@.output_files,
                    ids@,
                    Status::Error,
                    now as int,
                ),
                ..old(state)@
            }),
    {
        patch_rows_by_ids(ids, Status::Error, now, state);
    }

    /// Mark the output files of this datum as having been successfully
    /// uploaded.
    pub fn mark_as_done_by_datum(datum: &Datum, now: i64, state: &mut State)
        requires
            old(state)@.wf(),
            0 <= now,
        ensures
            final(state)@.wf(),
            final(state)@ == (StateView {
                output_files: patch_output_by_datum(
                    old(state)@.output_files,
                    datum.id,
                    Status::Done,
                    now as int,
                ),
                ..old(state)@
            }),
    {
        patch_rows_by_datum(datum.id, Status::Done, now, state);
    }

    /// Mark the output files of this datum as having failed to upload.
    pub fn mark_as_error_by_datum(datum: &Datum, now: i64, state: &mut State)
        requires
            old(state)@.wf(),
            0 <= now,
        ensures
            final(state)@.wf(),
            final(state)@ == (StateView {
                output_files: patch_output_by_datum(
                    old(state)@.output_files,
                    datum.id,
                    Status::Error,
                    now as int,
                ),
                ..old(state)@
            }),
    {
        patch_rows_by_datum(datum.id, Status::Error, now, state);
    }
}

/// Data required to create a new `OutputFile`.
#[derive(Debug)]
pub struct NewOutputFile {
    /// The job which created this file.
    pub job_id: u128,
    /// The datum which created this file.
    pub datum_id: u128,
    /// The URI to which we will upload this file.
    pub uri: String,
}

/// The mathematical image of a `NewOutputFile`.
pub struct NewOutputFileView {
    /// The owning job.
    pub job_id: u128,
    /// The owning datum.
    pub datum_id: u128,
    /// The destination URI.
    pub uri: Seq<char>,
}

impl View for NewOutputFile {
    type V = NewOutputFileView;

    open spec fn view(&self) -> NewOutputFileView {
        NewOutputFileView { job_id: self.job_id, datum_id: self.datum_id, uri: self.uri@ }
    }
}

/// The given ids are pairwise distinct and none is already in use in the
/// output-file table.
pub open spec fn output_file_ids_fresh(existing: Seq<OutputFileView>, ids: Seq<u128>) -> bool {
    &&& forall|k: int| 0 <= k < ids.len() ==> !has_output_file(existing, #[trigger] ids[k])
    &&& forall|k: int, j: int|
        #![trigger ids[k], ids[j]]
        0 <= k < ids.len() && 0 <= j < ids.len() && ids[k] == ids[j] ==> k == j
}

/// The output-file row created for one record and one id: an upload that is
/// about to begin.
pub open spec fn new_output_file_row(nf: NewOutputFileView, id: u128, now: int) -> OutputFileView {
    OutputFileView {
        id,
        created_at: now,
        updated_at: now,
        status: Status::Running,
        job_id: nf.job_id,
        datum_id: nf.datum_id,
        uri: nf.uri,
    }
}

impl NewOutputFile {
    /// An exact copy of this record.
    pub fn duplicate(&self) -> (r: NewOutputFile)
        ensures
            r@ == self@,
    {
        NewOutputFile { job_id: self.job_id, datum_id: self.datum_id, uri: self.uri.clone() }
    }

    /// Insert new output files with the given ids and status `running`, in
    /// one transaction: every row is appended and returned, or none if an id
    /// is taken or repeated. This carries the whole insert for any choice of
    /// ids; [`NewOutputFile::insert_all`] draws random ones.
    pub fn insert_all_with_ids(
        files: &Vec<NewOutputFile>,
        ids: &Vec<u128>,
        now: i64,
        state: &mut State,
    ) -> (r: Result<Vec<OutputFile>, Error>)
        requires
            old(state)@.wf(),
            0 <= now,
            ids@.len() == files@.len(),
        ensures
            final(state)@.wf(),
            match r {
                Ok(created) => {
                    &&& output_file_ids_fresh(old(state)@.output_files, ids@)
                    &&& created@.map_values(|f: OutputFile| f@) == Seq::new(
                        files@.len(),
                        |k: int| new_output_file_row(files@[k]@, ids@[k], now as int),
                    )
                    &&& final(state)@ == (StateView {
                        output_files: old(state)@.output_files + Seq::new(
                            files@.len(),
                            |k: int| new_output_file_row(files@[k]@, ids@[k], now as int),
                        ),
                        ..old(state)@
                    })
                },
                Err(e) => e == Error::DuplicateId && !output_file_ids_fresh(
                    old(state)@.output_files,
                    ids@,
                ) && final(state)@ == old(state)@,
            },
    {
        let ghost existing = old(state)@.output_files;
        let ghost target = Seq::new(
            files@.len(),
            |k: int| new_output_file_row(files@[k]@, ids@[k], now as int),
        );
        // Check every id before touching the store, so that a conflict
        // leaves the state unchanged, as an aborted transaction would.
        let mut k: usize = 0;
        while k < ids.len()
            invariant
                state@ == old(state)@,
                old(state)@.wf(),
                existing == old(state)@.output_files,
                0 <= k <= ids@.len(),
                forall|j: int| 0 <= j < k ==> !has_output_file(existing, #[trigger] ids@[j]),
                forall|j: int, l: int|
                    #![trigger ids@[j], ids@[l]]
                    0 <= j < k && 0 <= l < k && ids@[j] == ids@[l] ==> j == l,
            decreases ids@.len() - k,
        {
            if state.find_output_file_index(ids[k]).is_some() {
                proof {
                    assert(!output_file_ids_fresh(existing, ids@)) by {
                        if output_file_ids_fresh(existing, ids@) {
                            assert(!has_output_file(existing, ids@[k as int]));
                        }
                    }
                }
                return Err(Error::DuplicateId);
            }
            let mut j: usize = 0;
            while j < k
                invariant
                    state@ == old(state)@,
                    old(state)@.wf(),
                    existing == old(state)@.output_files,
                    0 <= j <= k < ids@.len(),
                    forall|l: int| 0 <= l < j ==> #[trigger] ids@[l] != ids@[k as int],
                decreases k - j,
            {
                if ids[j] == ids[k] {
                    proof {
                        assert(!output_file_ids_fresh(existing, ids@)) by {
                            if output_file_ids_fresh(existing, ids@) {
                                assert(ids@[j as int] == ids@[k as int] ==> j == k);
                            }
                        }
                    }
                    return Err(Error::DuplicateId);
                }
                j += 1;
            }
            k += 1;
        }
        proof {
            assert(output_file_ids_fresh(existing, ids@));
        }
        // Append the rows and hand back copies.
        let mut created: Vec<OutputFile> = Vec::new();
        let mut k: usize = 0;
        while k < files.len()
            invariant
                0 <= k <= files@.len(),
                ids@.len() == files@.len(),
                old(state)@.wf(),
                0 <= now,
                existing == old(state)@.output_files,
                target == Seq::new(
                    files@.len(),
                    |t: int| new_output_file_row(files@[t]@, ids@[t], now as int),
                ),
                output_file_ids_fresh(existing, ids@),
                created@.len() == k,
                forall|j: int| 0 <= j < k ==> (#[trigger] created@[j])@ == target[j],
                state@.jobs == old(state)@.jobs,
                state@.datums == old(state)@.datums,
                state@.input_files == old(state)@.input_files,
                state@.output_files == existing + target.take(k as int),
                state@.output_files_wf(),
            decreases files@.len() - k,
        {
            let nf = &files[k];
            let row = OutputFile {
                id: ids[k],
                created_at: now,
                updated_at: now,
                status: Status::Running,
                job_id: nf.job_id,
                datum_id: nf.datum_id,
                uri: nf.uri.clone(),
            };
            proof {
                assert(row@ == target[k as int]);
                assert(!has_output_file(state@.output_files, row@.id)) by {
                    if has_output_file(state@.output_files, row@.id) {
                        let w = choose|w: int|
                            0 <= w < state@.output_files.len() && state@.output_files[w].id
                                == row@.id;
                        if w < existing.len() {
                            assert(existing[w].id == row@.id);
                            assert(!has_output_file(existing, ids@[k as int]));
                        } else {
                            assert(state@.output_files[w] == target.take(k as int)[w
                                - existing.len()]);
                            assert(ids@[w - existing.len()] == ids@[k as int]);
                        }
                    }
                }
                lemma_output_files_wf_push(state@.output_files, row@);
            }
            let ghost before = state@.output_files;
            created.push(row.duplicate());
            state.output_files.push(row);
            proof {
                assert(state@.output_files =~= before.push(target[k as int]));
                assert(state@.output_files =~= existing + target.take(k + 1));
            }
            k += 1;
        }
        proof {
            assert(target.take(files@.len() as int) =~= target);
            assert(state@.output_files =~= existing + target);
            assert(created@.map_values(|f: OutputFile| f@) =~= target);
        }
        Ok(created)
    }

    /// Insert new output files into the store, with freshly minted random
    /// ids and status `running`, returning the created rows. As with the
    /// store's primary keys, an id collision makes the whole insert fail
    /// with nothing changed; the exact law of the insert, for every choice
    /// of ids, is [`NewOutputFile::insert_all_with_ids`].
    pub fn insert_all(files: &Vec<NewOutputFile>, now: i64, state: &mut State) -> (r: Result<
        Vec<OutputFile>,
        Error,
    >)
        requires
            old(state)@.wf(),
            0 <= now,
        ensures
            final(state)@.wf(),
            match r {
                Ok(created) => {
                    &&& created@.len() == files@.len()
                    &&& forall|k: int|
                        0 <= k < created@.len() ==> {
                            let c = (#[trigger] created@[k])@;
                            &&& c.job_id == files@[k]@.job_id
                            &&& c.datum_id == files@[k]@.datum_id
                            &&& c.uri == files@[k]@.uri
                            &&& c.status == Status::Running
                            &&& c.created_at == now as int
                            &&& c.updated_at == now as int
                        }
                    &&& final(state)@ == (StateView {
                        output_files: old(state)@.output_files + created@.map_values(
                            |f: OutputFile| f@,
                        ),
                        ..old(state)@
                    })
                },
                Err(e) => e == Error::DuplicateId && final(state)@ == old(state)@,
            },
    {
        let mut ids: Vec<u128> = Vec::new();
        let mut k: usize = 0;
        while k < files.len()
            invariant
                state@ == old(state)@,
                old(state)@.wf(),
                0 <= k <= files@.len(),
                ids@.len() == k,
            decreases files@.len() - k,
        {
            ids.push(fresh_uuid());
            k += 1;
        }
        match Self::insert_all_with_ids(files, &ids, now, state) {
            Ok(created) => {
                proof {
                    let target = Seq::new(
                        files@.len(),
                        |t: int| new_output_file_row(files@[t]@, ids@[t], now as int),
                    );
                    assert forall|t: int|
                        0 <= t < created@.len() implies (#[trigger] created@[t])@ == target[t] by {
                        assert(created@.map_values(|f: OutputFile| f@)[t] == created@[t]@);
                    }
                }
                Ok(created)
            },
            Err(e) => Err(e),
        }
    }
}

} // verus!
