//! Input files: the objects a worker downloads before running its command.

use vstd::prelude::*;

use crate::datum::Datum;
use crate::error::Error;
use crate::ids::fresh_uuid;
use crate::state::{has_input_file, input_files_of, lemma_input_files_wf_push, State, StateView};

verus! {

/// An input file which needs to be downloaded to the worker container.
#[derive(Debug)]
pub struct InputFile {
    /// The unique ID of this file.
    pub id: u128,
    /// When this record was created (microseconds since the epoch).
    pub created_at: i64,
    /// The ID of the datum to which this file belongs.
    pub datum_id: u128,
    /// The URI from which this file can be downloaded.
    pub uri: String,
    /// The local path to which this file should be downloaded.
    pub local_path: String,
    /// The job to which this input file belongs.
    pub job_id: u128,
}

/// The mathematical image of an `InputFile`.
pub struct InputFileView {
    /// The unique ID of this file.
    pub id: u128,
    /// When this record was created.
    pub created_at: int,
    /// The owning datum.
    pub datum_id: u128,
    /// The source URI.
    pub uri: Seq<char>,
    /// The local download path.
    pub local_path: Seq<char>,
    /// The owning job.
    pub job_id: u128,
}

impl View for InputFile {
    type V = InputFileView;

    open spec fn view(&self) -> InputFileView {
        InputFileView {
            id: self.id,
            created_at: self.created_at as int,
            datum_id: self.datum_id,
            uri: self.uri@,
            local_path: self.local_path@,
            job_id: self.job_id,
        }
    }
}

impl InputFileView {
    /// The record invariant that every stored input file satisfies.
    pub open spec fn wf(self) -> bool {
        0 <= self.created_at <= i64::MAX
    }
}

impl InputFile {
    /// Fetch the input files of each of the given datums, grouped in the
    /// same order.
    pub fn for_datums(datums: &Vec<Datum>, state: &State) -> (r: Vec<Vec<InputFile>>)
        ensures
            r@.len() == datums@.len(),
            forall|k: int|
                0 <= k < datums@.len() ==> (#[trigger] r@[k])@.map_values(|f: InputFile| f@)
                    == input_files_of(state@.input_files, datums@[k].id),
    {
        let mut r: Vec<Vec<InputFile>> = Vec::new();
        let mut k: usize = 0;
        while k < datums.len()
            invariant
                0 <= k <= datums@.len(),
                r@.len() == k,
                forall|j: int|
                    0 <= j < k ==> (#[trigger] r@[j])@.map_values(|f: InputFile| f@)
                        == input_files_of(state@.input_files, datums@[j].id),
            decreases datums@.len() - k,
        {
            r.push(datums[k].input_files(state));
            k += 1;
        }
        r
    }

    /// Generate a sample value for testing.
    pub fn factory(datum: &Datum, now: i64) -> (r: InputFile)
        ensures
            r@.created_at == now as int,
            r@.datum_id == datum@.id,
            r@.job_id == datum@.job_id,
            r@.uri == "gs://example-bucket/input/file.csv"@,
            r@.local_path == "/pfs/input/file.csv"@,
    {
        InputFile {
            id: fresh_uuid(),
            created_at: now,
            datum_id: datum.id,
            uri: "gs://example-bucket/input/file.csv".to_owned(),
            local_path: "/pfs/input/file.csv".to_owned(),
            job_id: datum.job_id,
        }
    }

    /// An exact copy of this input file.
    pub fn duplicate(&self) -> (r: InputFile)
        ensures
            r@ == self@,
    {
        InputFile {
            id: self.id,
            created_at: self.created_at,
            datum_id: self.datum_id,
            uri: self.uri.clone(),
            local_path: self.local_path.clone(),
            job_id: self.job_id,
        }
    }
}

/// Data required to create a new `InputFile`.
#[derive(Debug)]
pub struct NewInputFile {
    /// The ID of the datum to which this file belongs.
    pub datum_id: u128,
    /// The URI from which this file can be downloaded.
    pub uri: String,
    /// The local path to which this file should be downloaded.
    pub local_path: String,
    /// The job to which this input file belongs.
    pub job_id: u128,
}

/// The mathematical image of a `NewInputFile`.
pub struct NewInputFileView {
    /// The owning datum.
    pub datum_id: u128,
    /// The source URI.
    pub uri: Seq<char>,
    /// The local download path.
    pub local_path: Seq<char>,
    /// The owning job.
    pub job_id: u128,
}

impl View for NewInputFile {
    type V = NewInputFileView;

    open spec fn view(&self) -> NewInputFileView {
        NewInputFileView {
            datum_id: self.datum_id,
            uri: self.uri@,
            local_path: self.local_path@,
            job_id: self.job_id,
        }
    }
}

/// The given ids are pairwise distinct and none is already in use in the
/// input-file table.
pub open spec fn input_file_ids_fresh(existing: Seq<InputFileView>, ids: Seq<u128>) -> bool {
    &&& forall|k: int| 0 <= k < ids.len() ==> !has_input_file(existing, #[trigger] ids[k])
    &&& forall|k: int, j: int|
        #![trigger ids[k], ids[j]]
        0 <= k < ids.len() && 0 <= j < ids.len() && ids[k] == ids[j] ==> k == j
}

/// The input-file row created for one record and one id.
pub open spec fn new_input_file_row(nf: NewInputFileView, id: u128, now: int) -> InputFileView {
    InputFileView {
        id,
        created_at: now,
        datum_id: nf.datum_id,
        uri: nf.uri,
        local_path: nf.local_path,
        job_id: nf.job_id,
    }
}

impl NewInputFile {
    /// Insert new input files with the given ids, in one transaction: every
    /// row is appended, or none if an id is taken or repeated. This carries
    /// the whole insert for any choice of ids; [`NewInputFile::insert_all`]
    /// draws random ones.
    pub fn insert_all_with_ids(
        files: &Vec<NewInputFile>,
        ids: &Vec<u128>,
        now: i64,
        state: &mut State,
    ) -> (r: Result<(), Error>)
        requires
            old(state)@.wf(),
            0 <= now,
            ids@.len() == files@.len(),
        ensures
            final(state)@.wf(),
            match r {
                Ok(()) => input_file_ids_fresh(old(state)@.input_files, ids@) && final(state)@
                    == (StateView {
                    input_files: old(state)@.input_files + Seq::new(
                        files@.len(),
                        |k: int| new_input_file_row(files@[k]@, ids@[k], now as int),
                    ),
                    ..old(state)@
                }),
                Err(e) => e == Error::DuplicateId && !input_file_ids_fresh(
                    old(state)@.input_files,
                    ids@,
                ) && final(state)@ == old(state)@,
            },
    {
        let ghost existing = old(state)@.input_files;
        let ghost target = Seq::new(
            files@.len(),
            |k: int| new_input_file_row(files@[k]@, ids@[k], now as int),
        );
        // Check every id before touching the store, so that a conflict
        // leaves the state unchanged, as an aborted transaction would.
        let mut k: usize = 0;
        while k < ids.len()
            invariant
                state@ == old(state)@,
                old(state)@.wf(),
                existing == old(state)@.input_files,
                0 <= k <= ids@.len(),
                forall|j: int| 0 <= j < k ==> !has_input_file(existing, #[trigger] ids@[j]),
                forall|j: int, l: int|
                    #![trigger ids@[j], ids@[l]]
                    0 <= j < k && 0 <= l < k && ids@[j] == ids@[l] ==> j == l,
            decreases ids@.len() - k,
        {
            if state.find_input_file_index(ids[k]).is_some() {
                proof {
                    assert(!input_file_ids_fresh(existing, ids@)) by {
                        if input_file_ids_fresh(existing, ids@) {
                            assert(!has_input_file(existing, ids@[k as int]));
                        }
                    }
                }
                return Err(Error::DuplicateId);
            }
            let mut j: usize = 0;
            while j < k
                invariant
                    state@ == old(state)@,
                    old(state)@.wf(),
                    existing == old(state)@.input_files,
                    0 <= j <= k < ids@.len(),
                    forall|l: int| 0 <= l < j ==> #[trigger] ids@[l] != ids@[k as int],
                decreases k - j,
            {
                if ids[j] == ids[k] {
                    proof {
                        assert(!input_file_ids_fresh(existing, ids@)) by {
                            if input_file_ids_fresh(existing, ids@) {
                                assert(ids@[j as int] == ids@[k as int] ==> j == k);
                            }
                        }
                    }
                    return Err(Error::DuplicateId);
                }
                j += 1;
            }
            k += 1;
        }
        proof {
            assert(input_file_ids_fresh(existing, ids@));
        }
        // Append the rows.
        let mut k: usize = 0;
        while k < files.len()
            invariant
                0 <= k <= files@.len(),
                ids@.len() == files@.len(),
                old(state)@.wf(),
                0 <= now,
                existing == old(state)@.input_files,
                target == Seq::new(
                    files@.len(),
                    |t: int| new_input_file_row(files@[t]@, ids@[t], now as int),
                ),
                input_file_ids_fresh(existing, ids@),
                state@.jobs == old(state)@.jobs,
                state@.datums == old(state)@.datums,
                state@.output_files == old(state)@.output_files,
                state@.input_files == existing + target.take(k as int),
                state@.input_files_wf(),
            decreases files@.len() - k,
        {
            let nf = &files[k];
            let row = InputFile {
                id: ids[k],
                created_at: now,
                datum_id: nf.datum_id,
                uri: nf.uri.clone(),
                local_path: nf.local_path.clone(),
                job_id: nf.job_id,
            };
            proof {
                assert(row@ == target[k as int]);
                assert(!has_input_file(state@.input_files, row@.id)) by {
                    if has_input_file(state@.input_files, row@.id) {
                        let w = choose|w: int|
                            0 <= w < state@.input_files.len() && state@.input_files[w].id
                                == row@.id;
                        if w < existing.len() {
                            assert(existing[w].id == row@.id);
                            assert(!has_input_file(existing, ids@[k as int]));
                        } else {
                            assert(state@.input_files[w] == target.take(k as int)[w
                                - existing.len()]);
                            assert(ids@[w - existing.len()] == ids@[k as int]);
                        }
                    }
                }
                lemma_input_files_wf_push(state@.input_files, row@);
            }
            let ghost before = state@.input_files;
            state.input_files.push(row);
            proof {
                assert(state@.input_files =~= before.push(target[k as int]));
                assert(state@.input_files =~= existing + target.take(k + 1));
            }
            k += 1;
        }
        proof {
            assert(target.take(files@.len() as int) =~= target);
            assert(state@.input_files =~= existing + target);
        }
        Ok(())
    }

    /// Insert new input files into the store, with freshly minted random
    /// ids. As with the store's primary keys, an id collision makes the
    /// whole insert fail with nothing changed; the exact law of the insert,
    /// for every choice of ids, is [`NewInputFile::insert_all_with_ids`].
    pub fn insert_all(files: &Vec<NewInputFile>, now: i64, state: &mut State) -> (r: Result<
        (),
        Error,
    >)
        requires
            old(state)@.wf(),
            0 <= now,
        ensures
            final(state)@.wf(),
            match r {
                Ok(()) => {
                    &&& final(state)@.input_files.len() == old(state)@.input_files.len()
                        + files@.len()
                    &&& final(state)@.input_files.subrange(
                        0,
                        old(state)@.input_files.len() as int,
                    ) == old(state)@.input_files
                    &&& forall|k: int|
                        0 <= k < files@.len() ==> {
                            let f = #[trigger] final(state)@.input_files[old(
                                state,
                            )@.input_files.len() + k];
                            &&& f.datum_id == files@[k]@.datum_id
                            &&& f.uri == files@[k]@.uri
                            &&& f.local_path == files@[k]@.local_path
                            &&& f.job_id == files@[k]@.job_id
                            &&& f.created_at == now as int
                        }
                    &&& final(state)@.jobs == old(state)@.jobs
                    &&& final(state)@.datums == old(state)@.datums
                    &&& final(state)@.output_files == old(state)@.output_files
                },
                Err(e) => e == Error::DuplicateId && final(state)@ == old(state)@,
            },
    {
        let mut ids: Vec<u128> = Vec::new();
        let mut k: usize = 0;
        while k < files.len()
            invariant
                state@ == old(state)@,
                old(state)@.wf(),
                0 <= k <= files@.len(),
                ids@.len() == k,
            decreases files@.len() - k,
        {
            ids.push(fresh_uuid());
            k += 1;
        }
        let r = Self::insert_all_with_ids(files, &ids, now, state);
        proof {
            if r is Ok {
                assert(state@.input_files.subrange(0, old(state)@.input_files.len() as int)
                    =~= old(state)@.input_files);
            }
        }
        r
    }
}

} // verus!
