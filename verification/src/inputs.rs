//! The datum planner: converts a pipeline `Input` expression into the
//! concrete set of datums (work chunks) to be assigned to workers.
//!
//! Listing a cloud-storage prefix is an outside effect, so the planner takes
//! the listings as data: one vector of entry URIs per `Atom` of the input
//! expression, in depth-first traversal order ([`atom_uris`] yields the URIs
//! to list, in that same order).

use vstd::prelude::*;

use crate::datum::NewDatum;
use crate::error::Error;
use crate::ids::fresh_uuid;
use crate::input_file::{NewInputFile, NewInputFileView};
use crate::pipeline::{Glob, Input};

verus! {

/// One planned input file: the URI to download and the local path to place
/// it at.
pub struct FilePlan {
    /// The source URI.
    pub uri: Seq<char>,
    /// The local download path.
    pub local_path: Seq<char>,
}

/// One input file of a planned datum, in executable form.
#[derive(Clone, Debug)]
pub struct InputFileData {
    /// The source URI.
    pub uri: String,
    /// The local download path.
    pub local_path: String,
}

impl View for InputFileData {
    type V = FilePlan;

    open spec fn view(&self) -> FilePlan {
        FilePlan { uri: self.uri@, local_path: self.local_path@ }
    }
}

/// One planned datum: the list of input files a worker must download before
/// running the user command.
#[derive(Clone, Debug)]
pub struct DatumData {
    /// The input files of this datum, in download order.
    pub input_files: Vec<InputFileData>,
}

impl View for DatumData {
    type V = Seq<FilePlan>;

    open spec fn view(&self) -> Seq<FilePlan> {
        self.input_files@.map_values(|f: InputFileData| f@)
    }
}

/// The number of `Atom` leaves of an input expression, in traversal order.
pub open spec fn atom_count(input: Input) -> nat
    decreases input,
{
    match input {
        Input::Atom { .. } => 1,
        Input::Cross(children) => atom_count_from(children@, 0),
        Input::Union(children) => atom_count_from(children@, 0),
    }
}

/// The number of `Atom` leaves of the children `cs[i..]`.
pub open spec fn atom_count_from(cs: Seq<Input>, i: int) -> nat
    decreases cs, cs.len() - i,
{
    if i < 0 || i >= cs.len() {
        0
    } else {
        atom_count(cs[i]) + atom_count_from(cs, i + 1)
    }
}

/// The number of `Atom` leaves of the children `cs[i..j]`.
pub open spec fn atoms_between(cs: Seq<Input>, i: int, j: int) -> nat {
    (atom_count_from(cs, i) - atom_count_from(cs, j)) as nat
}

/// Counting from `i` equals counting from `i + 1` plus the `i`-th child.
proof fn lemma_atom_count_from_monotone(cs: Seq<Input>, i: int, j: int)
    requires
        0 <= i <= j <= cs.len(),
    ensures
        atom_count_from(cs, i) >= atom_count_from(cs, j),
    decreases j - i,
{
    if i < j {
        lemma_atom_count_from_monotone(cs, i + 1, j);
    }
}

/// Count the `Atom` leaves of an input expression.
pub fn count_atoms(input: &Input) -> (r: usize)
    requires
        atom_count(*input) <= usize::MAX,
    ensures
        r == atom_count(*input),
    decreases *input,
{
    match input {
        Input::Atom { .. } => 1,
        Input::Cross(children) | Input::Union(children) => {
            let mut total: usize = 0;
            let mut i: usize = 0;
            proof {
                lemma_atom_count_from_monotone(children@, 0, 0);
            }
            while i < children.len()
                invariant
                    0 <= i <= children@.len(),
                    decreases_to!(*input => *children),
                    atom_count(*input) <= usize::MAX,
                    atom_count(*input) == atom_count_from(children@, 0),
                    total == atoms_between(children@, 0, i as int),
                    atom_count_from(children@, 0) >= atom_count_from(children@, i as int),
                decreases children@.len() - i,
            {
                proof {
                    lemma_atom_count_from_monotone(children@, i as int, i + 1);
                    lemma_atom_count_from_monotone(children@, i + 1, children@.len() as int);
                    assert(atom_count_from(children@, children@.len() as int) == 0);
                    assert(decreases_to!(*children => children@[i as int]));
                }
                let n = count_atoms(&children[i]);
                total = total + n;
                i += 1;
            }
            proof {
                assert(atom_count_from(children@, children@.len() as int) == 0);
            }
            total
        },
    }
}

/// The position of the last `/` in `s`, or `-1` if there is none.
pub open spec fn spec_rfind_slash(s: Seq<char>) -> int
    decreases s.len(),
{
    if s.len() == 0 {
        -1
    } else if s.last() == '/' {
        s.len() - 1
    } else {
        spec_rfind_slash(s.drop_last())
    }
}

/// `spec_rfind_slash` finds the last slash: it is a slash position, and no
/// later position holds a slash.
pub proof fn lemma_rfind_slash(s: Seq<char>)
    ensures
        -1 <= spec_rfind_slash(s) < s.len(),
        spec_rfind_slash(s) >= 0 ==> s[spec_rfind_slash(s)] == '/',
        forall|j: int| spec_rfind_slash(s) < j < s.len() ==> s[j] != '/',
    decreases s.len(),
{
    if s.len() > 0 && s.last() != '/' {
        lemma_rfind_slash(s.drop_last());
        assert forall|j: int| spec_rfind_slash(s) < j < s.len() implies s[j] != '/' by {
            if j < s.len() - 1 {
                assert(s.drop_last()[j] == s[j]);
            }
        }
    }
}

/// A URI admits a local path when it contains a `/` and does not end with
/// one (the basename after the final `/` must be non-empty).
pub open spec fn spec_uri_local_path_ok(uri: Seq<char>) -> bool {
    spec_rfind_slash(uri) >= 0 && spec_rfind_slash(uri) != uri.len() - 1
}

/// The local path under `/pfs/<repo>` at which the object named by `uri`
/// is downloaded: `/pfs/<repo>/<basename>`.
pub open spec fn spec_uri_to_local_path(uri: Seq<char>, repo: Seq<char>) -> Seq<char> {
    "/pfs/"@ + repo + uri.subrange(spec_rfind_slash(uri), uri.len() as int)
}

/// The error reported for a URI that admits no local path.
pub open spec fn spec_uri_error(uri: Seq<char>) -> Error {
    if spec_rfind_slash(uri) < 0 {
        Error::NoSlashInUri
    } else {
        Error::UriEndsWithSlash
    }
}

/// A directory URI, normalized to end with `/`.
pub open spec fn spec_normalize_dir_uri(uri: Seq<char>) -> Seq<char> {
    if uri.len() > 0 && uri.last() == '/' {
        uri
    } else {
        uri + "/"@
    }
}

/// The local directory at which a whole repo is downloaded.
pub open spec fn spec_whole_repo_path(repo: Seq<char>) -> Seq<char> {
    "/pfs/"@ + repo + "/"@
}

/// The datums planned for one `Atom`: one datum per top-level entry of the
/// listing, or a single datum holding the whole repo.
pub open spec fn spec_atom_plan(
    uri: Seq<char>,
    repo: Seq<char>,
    glob: Glob,
    listing: Seq<Seq<char>>,
) -> Seq<Seq<FilePlan>> {
    match glob {
        Glob::WholeRepo => seq![
            seq![
                FilePlan {
                    uri: spec_normalize_dir_uri(uri),
                    local_path: spec_whole_repo_path(repo),
                },
            ],
        ],
        Glob::TopLevelDirectoryEntries => Seq::new(
            listing.len(),
            |k: int|
                seq![
                    FilePlan { uri: listing[k], local_path: spec_uri_to_local_path(listing[k], repo) },
                ],
        ),
    }
}

/// Planning an `Atom` succeeds when every listed entry admits a local path.
pub open spec fn spec_atom_ok(glob: Glob, listing: Seq<Seq<char>>) -> bool {
    match glob {
        Glob::WholeRepo => true,
        Glob::TopLevelDirectoryEntries => forall|k: int|
            0 <= k < listing.len() ==> #[trigger] spec_uri_local_path_ok(listing[k]),
    }
}

/// The number of `Atom` leaves of the children `cs[..k]`.
pub open spec fn atoms_before(cs: Seq<Input>, k: int) -> nat
    decreases k,
{
    if k <= 0 {
        0
    } else {
        atoms_before(cs, k - 1) + atom_count(cs[k - 1])
    }
}

/// The listings that belong to the `k`-th child of `cs`, out of the listings
/// of all the children.
pub open spec fn child_listings(cs: Seq<Input>, listings: Seq<Seq<Seq<char>>>, k: int) -> Seq<
    Seq<Seq<char>>,
> {
    listings.subrange(atoms_before(cs, k) as int, atoms_before(cs, k + 1) as int)
}

/// Atoms before position `k` plus atoms from position `k` make up all atoms.
pub proof fn lemma_atoms_split(cs: Seq<Input>, k: int)
    requires
        0 <= k <= cs.len(),
    ensures
        atoms_before(cs, k) + atom_count_from(cs, k) == atom_count_from(cs, 0),
    decreases k,
{
    if k > 0 {
        lemma_atoms_split(cs, k - 1);
    }
}

/// The Cartesian product of two datum lists: element `i * |b| + j` carries
/// the input files of `a[i]` followed by those of `b[j]`. The outer factor
/// iterates slower.
pub open spec fn spec_cross_join(a: Seq<Seq<FilePlan>>, b: Seq<Seq<FilePlan>>) -> Seq<
    Seq<FilePlan>,
> {
    Seq::new(a.len() * b.len(), |t: int| a[t / b.len() as int] + b[t % b.len() as int])
}

/// The datums planned for an input expression, given one listing per `Atom`
/// leaf in traversal order.
pub open spec fn spec_plan(input: Input, listings: Seq<Seq<Seq<char>>>) -> Seq<Seq<FilePlan>>
    decreases input, 0int,
{
    match input {
        Input::Atom { uri, repo, glob } => spec_atom_plan(uri@, repo@, glob, listings[0]),
        Input::Union(cs) => spec_plan_union(cs@, listings, 0),
        Input::Cross(cs) => spec_plan_cross(cs@, listings, cs@.len() as int),
    }
}

/// The concatenation of the plans of the children `cs[k..]`.
pub open spec fn spec_plan_union(cs: Seq<Input>, listings: Seq<Seq<Seq<char>>>, k: int) -> Seq<
    Seq<FilePlan>,
>
    decreases cs, cs.len() - k,
{
    if k < 0 || k >= cs.len() {
        Seq::empty()
    } else {
        spec_plan(cs[k], child_listings(cs, listings, k)) + spec_plan_union(cs, listings, k + 1)
    }
}

/// The plan of the cross product of the children `cs[..hi]`, associated to
/// the left: the cross of no inputs is empty, of one input its own plan, and
/// otherwise the join of the cross of the front with the plan of the last.
pub open spec fn spec_plan_cross(cs: Seq<Input>, listings: Seq<Seq<Seq<char>>>, hi: int) -> Seq<
    Seq<FilePlan>,
>
    decreases cs, hi,
{
    if hi <= 0 || hi > cs.len() {
        Seq::empty()
    } else if hi == 1 {
        spec_plan(cs[0], child_listings(cs, listings, 0))
    } else {
        spec_cross_join(
            spec_plan_cross(cs, listings, hi - 1),
            spec_plan(cs[hi - 1], child_listings(cs, listings, hi - 1)),
        )
    }
}

/// Planning succeeds if and only if every atom of the expression succeeds.
pub open spec fn spec_plan_ok(input: Input, listings: Seq<Seq<Seq<char>>>) -> bool
    decreases input, 0int,
{
    match input {
        Input::Atom { uri, repo, glob } => spec_atom_ok(glob, listings[0]),
        Input::Union(cs) => spec_plan_ok_children(cs@, listings, 0),
        Input::Cross(cs) => spec_plan_ok_children(cs@, listings, 0),
    }
}

/// All of the children `cs[k..]` plan successfully.
pub open spec fn spec_plan_ok_children(cs: Seq<Input>, listings: Seq<Seq<Seq<char>>>, k: int) -> bool
    decreases cs, cs.len() - k,
{
    if k < 0 || k >= cs.len() {
        true
    } else {
        spec_plan_ok(cs[k], child_listings(cs, listings, k)) && spec_plan_ok_children(
            cs,
            listings,
            k + 1,
        )
    }
}

/// The concatenation of the plans of the children `cs[..k]`.
pub open spec fn spec_plan_union_prefix(cs: Seq<Input>, listings: Seq<Seq<Seq<char>>>, k: int) -> Seq<
    Seq<FilePlan>,
>
    decreases k,
{
    if k <= 0 {
        Seq::empty()
    } else {
        spec_plan_union_prefix(cs, listings, k - 1) + spec_plan(
            cs[k - 1],
            child_listings(cs, listings, k - 1),
        )
    }
}

/// The plan of a union is the plan of the first `k` children followed by the
/// plan of the rest.
pub proof fn lemma_union_prefix_full(cs: Seq<Input>, listings: Seq<Seq<Seq<char>>>, k: int)
    requires
        0 <= k <= cs.len(),
    ensures
        spec_plan_union_prefix(cs, listings, k) + spec_plan_union(cs, listings, k)
            == spec_plan_union(cs, listings, 0),
    decreases k,
{
    if k == 0 {
        assert(spec_plan_union_prefix(cs, listings, 0) + spec_plan_union(cs, listings, 0)
            =~= spec_plan_union(cs, listings, 0));
    } else {
        lemma_union_prefix_full(cs, listings, k - 1);
        assert(spec_plan_union_prefix(cs, listings, k) + spec_plan_union(cs, listings, k)
            =~= spec_plan_union_prefix(cs, listings, k - 1) + spec_plan_union(cs, listings, k - 1));
    }
}

/// The children `cs[k..]` all plan successfully exactly when each one does.
pub proof fn lemma_ok_children_iff(cs: Seq<Input>, listings: Seq<Seq<Seq<char>>>, k: int)
    requires
        0 <= k <= cs.len(),
    ensures
        spec_plan_ok_children(cs, listings, k) <==> (forall|j: int|
            k <= j < cs.len() ==> #[trigger] spec_plan_ok(cs[j], child_listings(cs, listings, j))),
    decreases cs.len() - k,
{
    if k < cs.len() {
        lemma_ok_children_iff(cs, listings, k + 1);
        if spec_plan_ok_children(cs, listings, k) {
            assert(spec_plan_ok(cs[k], child_listings(cs, listings, k)));
        }
        if forall|j: int|
            k <= j < cs.len() ==> #[trigger] spec_plan_ok(cs[j], child_listings(cs, listings, j)) {
            assert(spec_plan_ok(cs[k], child_listings(cs, listings, k)));
            assert(spec_plan_ok_children(cs, listings, k + 1));
        }
    }
}

/// Given a URI and a repo name, construct a local path starting with `/pfs`
/// pointing to where the file should be downloaded.
pub fn uri_to_local_path(uri: &str, repo: &str) -> (r: Result<String, Error>)
    ensures
        match r {
            Ok(p) => spec_uri_local_path_ok(uri@) && p@ == spec_uri_to_local_path(uri@, repo@),
            Err(e) => !spec_uri_local_path_ok(uri@) && e == spec_uri_error(uri@),
        },
{
    proof {
        lemma_rfind_slash(uri@);
    }
    let len = uri.unicode_len();
    let mut i = len;
    while i > 0
        invariant
            0 <= i <= len,
            len == uri@.len(),
            forall|j: int| i <= j < len ==> uri@[j] != '/',
        decreases i,
    {
        if uri.get_char(i - 1) == '/' {
            // The last slash: everything after position i - 1 is slash-free.
            let pos = i - 1;
            proof {
                lemma_rfind_slash(uri@);
                let r = spec_rfind_slash(uri@);
                if r > pos {
                    assert(uri@[r] != '/');
                } else if r < pos {
                    assert(uri@[pos as int] != '/');
                }
            }
            if pos == len - 1 {
                return Err(Error::UriEndsWithSlash);
            }
            let basename = uri.substring_char(pos, len);
            let mut out = "/pfs/".to_owned();
            out.append(repo);
            out.append(basename);
            return Ok(out);
        }
        i -= 1;
    }
    assert(spec_rfind_slash(uri@) < 0) by {
        if spec_rfind_slash(uri@) >= 0 {
            assert(uri@[spec_rfind_slash(uri@)] == '/');
        }
    }
    Err(Error::NoSlashInUri)
}

/// Convert a single `Input::Atom` into a list of datums.
fn atom_to_datums_helper(uri: &str, repo: &str, glob: Glob, listing: &Vec<String>) -> (r: Result<
    Vec<DatumData>,
    Error,
>)
    ensures
        match r {
            Ok(ds) => spec_atom_ok(glob, listing.deep_view()) && ds@.map_values(
                |d: DatumData| d@,
            ) == spec_atom_plan(uri@, repo@, glob, listing.deep_view()),
            Err(e) => !spec_atom_ok(glob, listing.deep_view()) && (e == Error::NoSlashInUri || e
                == Error::UriEndsWithSlash),
        },
{
    let ghost l = listing.deep_view();
    match glob {
        // The input file is just the entire repo, as a directory. Normalize
        // the URI to end with a slash, because repositories are directories.
        Glob::WholeRepo => {
            let len = uri.unicode_len();
            let mut base = uri.to_owned();
            if !(len > 0 && uri.get_char(len - 1) == '/') {
                base.append("/");
            }
            let mut local = "/pfs/".to_owned();
            local.append(repo);
            local.append("/");
            let file = InputFileData { uri: base, local_path: local };
            let datum = DatumData { input_files: vec![file] };
            let ds = vec![datum];
            proof {
                assert(ds@.map_values(|d: DatumData| d@) =~~= spec_atom_plan(
                    uri@,
                    repo@,
                    glob,
                    l,
                ));
            }
            Ok(ds)
        },
        // Each top-level entry of the listing becomes a separate datum.
        Glob::TopLevelDirectoryEntries => {
            let mut ds: Vec<DatumData> = Vec::new();
            let mut k: usize = 0;
            while k < listing.len()
                invariant
                    glob == Glob::TopLevelDirectoryEntries,
                    0 <= k <= listing@.len(),
                    l == listing.deep_view(),
                    ds@.len() == k,
                    forall|j: int| 0 <= j < k ==> spec_uri_local_path_ok(l[j]),
                    forall|j: int|
                        0 <= j < k ==> ds@[j]@ =~= seq![
                            FilePlan { uri: l[j], local_path: spec_uri_to_local_path(l[j], repo@) },
                        ],
                decreases listing@.len() - k,
            {
                let entry = &listing[k];
                match uri_to_local_path(entry.as_str(), repo) {
                    Ok(p) => {
                        let file = InputFileData { uri: entry.clone(), local_path: p };
                        ds.push(DatumData { input_files: vec![file] });
                    },
                    Err(e) => {
                        proof {
                            assert(!spec_uri_local_path_ok(l[k as int]));
                            assert(!spec_atom_ok(glob, l)) by {
                                if spec_atom_ok(glob, l) {
                                    assert(spec_uri_local_path_ok(l[k as int]));
                                }
                            }
                        }
                        return Err(e);
                    },
                }
                k += 1;
            }
            proof {
                assert(ds@.map_values(|d: DatumData| d@) =~~= spec_atom_plan(
                    uri@,
                    repo@,
                    glob,
                    l,
                ));
            }
            Ok(ds)
        },
    }
}

/// A datum carrying the input files of `x` followed by those of `y`.
fn concat_files(x: &DatumData, y: &DatumData) -> (d: DatumData)
    ensures
        d@ == x@ + y@,
{
    let mut files: Vec<InputFileData> = Vec::new();
    let mut i: usize = 0;
    while i < x.input_files.len()
        invariant
            0 <= i <= x.input_files@.len(),
            files@.len() == i,
            forall|j: int| 0 <= j < i ==> files@[j] == x.input_files@[j],
        decreases x.input_files@.len() - i,
    {
        let f = &x.input_files[i];
        files.push(InputFileData { uri: f.uri.clone(), local_path: f.local_path.clone() });
        i += 1;
    }
    let mut i: usize = 0;
    while i < y.input_files.len()
        invariant
            0 <= i <= y.input_files@.len(),
            files@.len() == x.input_files@.len() + i,
            forall|j: int| 0 <= j < x.input_files@.len() ==> files@[j] == x.input_files@[j],
            forall|j: int|
                0 <= j < i ==> files@[x.input_files@.len() + j] == y.input_files@[j],
        decreases y.input_files@.len() - i,
    {
        let f = &y.input_files[i];
        files.push(InputFileData { uri: f.uri.clone(), local_path: f.local_path.clone() });
        i += 1;
    }
    let d = DatumData { input_files: files };
    proof {
        assert(d@ =~= x@ + y@);
    }
    d
}

/// Build the cross product of two datum lists: every combination of one
/// datum from `a` and one from `b`, the input files concatenated, with the
/// `a` side iterating slower.
fn cross_product(a: &Vec<DatumData>, b: &Vec<DatumData>) -> (r: Vec<DatumData>)
    ensures
        r@.map_values(|d: DatumData| d@) == spec_cross_join(
            a@.map_values(|d: DatumData| d@),
            b@.map_values(|d: DatumData| d@),
        ),
{
    let ghost av = a@.map_values(|d: DatumData| d@);
    let ghost bv = b@.map_values(|d: DatumData| d@);
    let mut r: Vec<DatumData> = Vec::new();
    let mut i: usize = 0;
    while i < a.len()
        invariant
            0 <= i <= a@.len(),
            av == a@.map_values(|d: DatumData| d@),
            bv == b@.map_values(|d: DatumData| d@),
            r@.len() == i * bv.len(),
            forall|t: int|
                0 <= t < r@.len() ==> r@[t]@ == av[t / bv.len() as int] + bv[t % bv.len() as int],
        decreases a@.len() - i,
    {
        let mut j: usize = 0;
        while j < b.len()
            invariant
                0 <= i < a@.len(),
                0 <= j <= b@.len(),
                av == a@.map_values(|d: DatumData| d@),
                bv == b@.map_values(|d: DatumData| d@),
                r@.len() == i * bv.len() + j,
                forall|t: int|
                    0 <= t < r@.len() ==> r@[t]@ == av[t / bv.len() as int] + bv[t
                        % bv.len() as int],
            decreases b@.len() - j,
        {
            let d = concat_files(&a[i], &b[j]);
            proof {
                let t0 = i * bv.len() + j;
                vstd::arithmetic::div_mod::lemma_fundamental_div_mod_converse_div(
                    t0 as int,
                    bv.len() as int,
                    i as int,
                    j as int,
                );
                vstd::arithmetic::div_mod::lemma_fundamental_div_mod_converse_mod(
                    t0 as int,
                    bv.len() as int,
                    i as int,
                    j as int,
                );
            }
            r.push(d);
            j += 1;
        }
        proof {
            assert(i * bv.len() + bv.len() == (i + 1) * bv.len()) by (nonlinear_arith);
        }
        i += 1;
    }
    proof {
        assert(r@.map_values(|d: DatumData| d@) =~= spec_cross_join(av, bv));
    }
    r
}

/// Convert an `Input` expression into a list of datums, consuming the
/// listings `listings[start..start + atom_count(input)]`.
fn input_to_datums_helper(input: &Input, listings: &Vec<Vec<String>>, start: usize) -> (r: Result<
    Vec<DatumData>,
    Error,
>)
    requires
        start + atom_count(*input) <= listings@.len(),
    ensures
        ({
            let sub = listings.deep_view().subrange(
                start as int,
                start + atom_count(*input),
            );
            match r {
                Ok(ds) => spec_plan_ok(*input, sub) && ds@.map_values(|d: DatumData| d@)
                    == spec_plan(*input, sub),
                Err(e) => !spec_plan_ok(*input, sub) && (e == Error::NoSlashInUri || e
                    == Error::UriEndsWithSlash),
            }
        }),
    decreases *input,
{
    let ghost big = listings.deep_view();
    let ghost sub = big.subrange(start as int, start + atom_count(*input));
    match input {
        Input::Atom { uri, repo, glob } => {
            proof {
                assert(sub[0] == big[start as int]);
            }
            atom_to_datums_helper(uri.as_str(), repo.as_str(), *glob, &listings[start])
        },
        Input::Union(children) => {
            let ghost cs = children@;
            let ghost total = atom_count(*input);
            let cap = listings.len();
            let mut acc: Vec<DatumData> = Vec::new();
            let mut k: usize = 0;
            let mut o: usize = start;
            while k < children.len()
                invariant
                    0 <= k <= cs.len(),
                    cs == children@,
                    big == listings.deep_view(),
                    sub == big.subrange(start as int, start as int + total),
                    total == atom_count_from(cs, 0),
                    total == atom_count(*input),
                    start + total <= listings@.len(),
                    listings@.len() == cap,
                    decreases_to!(*input => *children),
                    o == start + atoms_before(cs, k as int),
                    spec_plan(*input, sub) == spec_plan_union(cs, sub, 0),
                    spec_plan_ok(*input, sub) == spec_plan_ok_children(cs, sub, 0),
                    acc@.map_values(|d: DatumData| d@) == spec_plan_union_prefix(
                        cs,
                        sub,
                        k as int,
                    ),
                    forall|j: int|
                        0 <= j < k ==> #[trigger] spec_plan_ok(cs[j], child_listings(cs, sub, j)),
                decreases cs.len() - k,
            {
                proof {
                    lemma_atoms_split(cs, k as int);
                    lemma_atoms_split(cs, k + 1);
                    assert(decreases_to!(*children => children@[k as int]));
                    assert(atom_count_from(cs, k as int) == atom_count(cs[k as int])
                        + atom_count_from(cs, k + 1));
                    assert(atoms_before(cs, k + 1) == atoms_before(cs, k as int) + atom_count(
                        cs[k as int],
                    ));
                    assert(big.subrange(o as int, o + atom_count(cs[k as int]))
                        =~= child_listings(cs, sub, k as int));
                }
                let n = count_atoms(&children[k]);
                match input_to_datums_helper(&children[k], listings, o) {
                    Ok(mut v) => {
                        let ghost vv = v@;
                        acc.append(&mut v);
                        proof {
                            assert(acc@.map_values(|d: DatumData| d@)
                                =~= spec_plan_union_prefix(cs, sub, k + 1));
                        }
                    },
                    Err(e) => {
                        proof {
                            assert(!spec_plan_ok(cs[k as int], child_listings(cs, sub, k as int)));
                            assert(!spec_plan_ok_children(cs, sub, 0)) by {
                                lemma_ok_children_iff(cs, sub, 0);
                                if spec_plan_ok_children(cs, sub, 0) {
                                    assert(spec_plan_ok(
                                        cs[k as int],
                                        child_listings(cs, sub, k as int),
                                    ));
                                }
                            }
                        }
                        return Err(e);
                    },
                }
                o = o + n;
                k += 1;
            }
            proof {
                lemma_union_prefix_full(cs, sub, cs.len() as int);
                assert(spec_plan_union_prefix(cs, sub, cs.len() as int) + spec_plan_union(
                    cs,
                    sub,
                    cs.len() as int,
                ) =~= spec_plan_union_prefix(cs, sub, cs.len() as int));
                lemma_ok_children_iff(cs, sub, 0);
            }
            Ok(acc)
        },
        Input::Cross(children) => {
            let ghost cs = children@;
            let ghost total = atom_count(*input);
            let cap = listings.len();
            if children.len() == 0 {
                let empty: Vec<DatumData> = Vec::new();
                proof {
                    assert(empty@.map_values(|d: DatumData| d@) =~= spec_plan(*input, sub));
                }
                return Ok(empty);
            }
            proof {
                lemma_atoms_split(cs, 0);
                lemma_atoms_split(cs, 1);
                assert(atom_count_from(cs, 0) == atom_count(cs[0]) + atom_count_from(cs, 1));
                assert(decreases_to!(*children => children@[0int]));
                assert(big.subrange(start as int, start + atom_count(cs[0]))
                    =~= child_listings(cs, sub, 0));
            }
            let n0 = count_atoms(&children[0]);
            let mut acc = match input_to_datums_helper(&children[0], listings, start) {
                Ok(v) => v,
                Err(e) => {
                    proof {
                        lemma_ok_children_iff(cs, sub, 0);
                    }
                    return Err(e);
                },
            };
            let mut k: usize = 1;
            let mut o: usize = start + n0;
            while k < children.len()
                invariant
                    1 <= k <= cs.len(),
                    cs == children@,
                    big == listings.deep_view(),
                    sub == big.subrange(start as int, start as int + total),
                    total == atom_count_from(cs, 0),
                    total == atom_count(*input),
                    start + total <= listings@.len(),
                    listings@.len() == cap,
                    decreases_to!(*input => *children),
                    o == start + atoms_before(cs, k as int),
                    spec_plan(*input, sub) == spec_plan_cross(cs, sub, cs.len() as int),
                    spec_plan_ok(*input, sub) == spec_plan_ok_children(cs, sub, 0),
                    acc@.map_values(|d: DatumData| d@) == spec_plan_cross(cs, sub, k as int),
                    forall|j: int|
                        0 <= j < k ==> #[trigger] spec_plan_ok(cs[j], child_listings(cs, sub, j)),
                decreases cs.len() - k,
            {
                proof {
                    lemma_atoms_split(cs, k as int);
                    lemma_atoms_split(cs, k + 1);
                    assert(decreases_to!(*children => children@[k as int]));
                    assert(atom_count_from(cs, k as int) == atom_count(cs[k as int])
                        + atom_count_from(cs, k + 1));
                    assert(atoms_before(cs, k + 1) == atoms_before(cs, k as int) + atom_count(
                        cs[k as int],
                    ));
                    assert(big.subrange(o as int, o + atom_count(cs[k as int]))
                        =~= child_listings(cs, sub, k as int));
                }
                let n = count_atoms(&children[k]);
                match input_to_datums_helper(&children[k], listings, o) {
                    Ok(v) => {
                        acc = cross_product(&acc, &v);
                    },
                    Err(e) => {
                        proof {
                            assert(!spec_plan_ok(cs[k as int], child_listings(cs, sub, k as int)));
                            assert(!spec_plan_ok_children(cs, sub, 0)) by {
                                lemma_ok_children_iff(cs, sub, 0);
                                if spec_plan_ok_children(cs, sub, 0) {
                                    assert(spec_plan_ok(
                                        cs[k as int],
                                        child_listings(cs, sub, k as int),
                                    ));
                                }
                            }
                        }
                        return Err(e);
                    },
                }
                o = o + n;
                k += 1;
            }
            proof {
                lemma_ok_children_iff(cs, sub, 0);
            }
            Ok(acc)
        },
    }
}

/// The input-file records of one planned datum, tagged with the owning datum
/// and job.
pub open spec fn spec_tag_one(
    files: Seq<FilePlan>,
    datum_id: u128,
    job_id: u128,
) -> Seq<NewInputFileView> {
    files.map_values(
        |f: FilePlan|
            NewInputFileView { datum_id, uri: f.uri, local_path: f.local_path, job_id },
    )
}

/// The input-file records of the first `k` planned datums, each tagged with
/// the id of the corresponding datum record.
pub open spec fn spec_tagged_prefix(
    plan: Seq<Seq<FilePlan>>,
    datums: Seq<NewDatum>,
    job_id: u128,
    k: int,
) -> Seq<NewInputFileView>
    decreases k,
{
    if k <= 0 {
        Seq::empty()
    } else {
        spec_tagged_prefix(plan, datums, job_id, k - 1) + spec_tag_one(
            plan[k - 1],
            datums[k - 1].id,
            job_id,
        )
    }
}

/// The input-file records of a whole plan.
pub open spec fn spec_tagged_files(
    plan: Seq<Seq<FilePlan>>,
    datums: Seq<NewDatum>,
    job_id: u128,
) -> Seq<NewInputFileView> {
    spec_tagged_prefix(plan, datums, job_id, plan.len() as int)
}

/// The tagged prefix reads only the first `k` datum records.
pub proof fn lemma_tagged_prefix_agree(
    plan: Seq<Seq<FilePlan>>,
    d1: Seq<NewDatum>,
    d2: Seq<NewDatum>,
    job_id: u128,
    k: int,
)
    requires
        0 <= k <= d1.len(),
        k <= d2.len(),
        forall|j: int| 0 <= j < k ==> d1[j] == d2[j],
    ensures
        spec_tagged_prefix(plan, d1, job_id, k) == spec_tagged_prefix(plan, d2, job_id, k),
    decreases k,
{
    if k > 0 {
        lemma_tagged_prefix_agree(plan, d1, d2, job_id, k - 1);
    }
}

impl InputFileData {
    /// Convert this into an actual `NewInputFile` owned by the given datum
    /// and job.
    pub fn into_new_input_file(self, job_id: u128, datum_id: u128) -> (r: NewInputFile)
        ensures
            r@ == (NewInputFileView { datum_id, uri: self.uri@, local_path: self.local_path@, job_id }),
    {
        NewInputFile { datum_id, uri: self.uri, local_path: self.local_path, job_id }
    }
}

impl DatumData {
    /// Convert this into an actual `NewDatum` with a freshly minted id, and
    /// the `NewInputFile` records that reference it.
    pub fn into_new_datum_and_input_files(
        self,
        job_id: u128,
        maximum_allowed_run_count: i32,
    ) -> (r: (NewDatum, Vec<NewInputFile>))
        ensures
            r.0.job_id == job_id,
            r.0.maximum_allowed_run_count == maximum_allowed_run_count,
            r.1@.map_values(|f: NewInputFile| f@) == spec_tag_one(self@, r.0.id, job_id),
    {
        let ghost plan = self@;
        let datum_id = fresh_uuid();
        let datum = NewDatum { id: datum_id, job_id, maximum_allowed_run_count };
        let mut files: Vec<NewInputFile> = Vec::new();
        let mut i: usize = 0;
        while i < self.input_files.len()
            invariant
                0 <= i <= self.input_files@.len(),
                plan == self@,
                files@.len() == i,
                forall|j: int|
                    0 <= j < i ==> files@[j]@ == (NewInputFileView {
                        datum_id,
                        uri: plan[j].uri,
                        local_path: plan[j].local_path,
                        job_id,
                    }),
            decreases self.input_files@.len() - i,
        {
            let f = &self.input_files[i];
            files.push(
                NewInputFile {
                    datum_id,
                    uri: f.uri.clone(),
                    local_path: f.local_path.clone(),
                    job_id,
                },
            );
            i += 1;
        }
        proof {
            assert(files@.map_values(|f: NewInputFile| f@) =~= spec_tag_one(plan, datum_id, job_id));
        }
        (datum, files)
    }
}

/// Given an `Input` from a pipeline spec and the listing of each of its
/// atoms, produce the set of datums (work chunks) to be assigned to workers,
/// in a form well-suited to one bulk insert: the datum records carry freshly
/// minted ids, and the input-file records reference them.
pub fn input_to_datums(
    job_id: u128,
    maximum_allowed_run_count: i32,
    input: &Input,
    listings: &Vec<Vec<String>>,
) -> (r: Result<(Vec<NewDatum>, Vec<NewInputFile>), Error>)
    requires
        listings@.len() == atom_count(*input),
    ensures
        ({
            let plan = spec_plan(*input, listings.deep_view());
            match r {
                Ok(out) => {
                    &&& spec_plan_ok(*input, listings.deep_view())
                    &&& out.0@.len() == plan.len()
                    &&& forall|k: int|
                        0 <= k < out.0@.len() ==> (#[trigger] out.0@[k]).job_id == job_id
                            && out.0@[k].maximum_allowed_run_count == maximum_allowed_run_count
                    &&& out.1@.map_values(|f: NewInputFile| f@) == spec_tagged_files(
                        plan,
                        out.0@,
                        job_id,
                    )
                },
                Err(e) => !spec_plan_ok(*input, listings.deep_view()) && (e == Error::NoSlashInUri
                    || e == Error::UriEndsWithSlash),
            }
        }),
{
    let ghost big = listings.deep_view();
    proof {
        assert(big.subrange(0, atom_count(*input) as int) =~= big);
    }
    let data = match input_to_datums_helper(input, listings, 0) {
        Ok(data) => data,
        Err(e) => {
            return Err(e);
        },
    };
    let ghost plan = spec_plan(*input, big);
    let mut all_datums: Vec<NewDatum> = Vec::new();
    let mut all_input_files: Vec<NewInputFile> = Vec::new();
    let mut k: usize = 0;
    // Consume the datum data front to back, moving each entry out of the
    // vector once, so that ownership of the file strings transfers.
    let mut rest = data;
    let n_total = rest.len();
    proof {
        assert(plan.len() == n_total as int);
    }
    while rest.len() > 0
        invariant
            k == plan.len() - rest@.len(),
            0 <= k <= plan.len(),
            plan.len() <= usize::MAX,
            forall|j: int|
                0 <= j < rest@.len() ==> (#[trigger] rest@[j])@ == plan[k + j],
            all_datums@.len() == k,
            forall|j: int|
                0 <= j < k ==> (#[trigger] all_datums@[j]).job_id == job_id
                    && all_datums@[j].maximum_allowed_run_count == maximum_allowed_run_count,
            all_input_files@.map_values(|f: NewInputFile| f@) == spec_tagged_prefix(
                plan,
                all_datums@,
                job_id,
                k as int,
            ),
        decreases rest@.len(),
    {
        let ghost old_datums = all_datums@;
        let datum_data = rest.remove(0);
        let (datum, mut files) = datum_data.into_new_datum_and_input_files(
            job_id,
            maximum_allowed_run_count,
        );
        let ghost file_views = files@;
        all_datums.push(datum);
        all_input_files.append(&mut files);
        proof {
            lemma_tagged_prefix_agree(plan, old_datums, all_datums@, job_id, k as int);
            assert(all_input_files@.map_values(|f: NewInputFile| f@) =~= spec_tagged_prefix(
                plan,
                all_datums@,
                job_id,
                k + 1,
            ));
        }
        k += 1;
    }
    Ok((all_datums, all_input_files))
}

/// Planner determinism: planning is a function of the input expression and
/// the listings alone, so any two plans of the same input over the same
/// listings are the same sequence of datums, each with the same input files
/// in the same order.
pub proof fn lemma_planner_deterministic(
    input: Input,
    listings: Seq<Seq<Seq<char>>>,
    r1: Seq<Seq<FilePlan>>,
    r2: Seq<Seq<FilePlan>>,
)
    requires
        r1 == spec_plan(input, listings),
        r2 == spec_plan(input, listings),
    ensures
        r1 == r2,
{
}

/// Union identity: the plan of `Union([a, b])` is the concatenation of the
/// plan of `a` (over the first `atom_count(a)` listings) and the plan of `b`
/// (over the rest).
pub proof fn lemma_union_identity(u: Input, a: Input, b: Input, listings: Seq<Seq<Seq<char>>>)
    requires
        u matches Input::Union(cs) && cs@ == seq![a, b],
    ensures
        spec_plan(u, listings) == spec_plan(a, listings.subrange(0, atom_count(a) as int))
            + spec_plan(
            b,
            listings.subrange(atom_count(a) as int, (atom_count(a) + atom_count(b)) as int),
        ),
{
    let cs = u->Union_0@;
    assert(atoms_before(cs, 0) == 0);
    assert(atoms_before(cs, 1) == atom_count(a));
    assert(atoms_before(cs, 2) == atom_count(a) + atom_count(b));
    assert(child_listings(cs, listings, 0) == listings.subrange(0, atom_count(a) as int));
    assert(child_listings(cs, listings, 1) == listings.subrange(
        atom_count(a) as int,
        (atom_count(a) + atom_count(b)) as int,
    ));
    assert(spec_plan_union(cs, listings, 2) =~= Seq::<Seq<FilePlan>>::empty());
    assert(spec_plan(b, child_listings(cs, listings, 1)) + Seq::<Seq<FilePlan>>::empty()
        =~= spec_plan(b, child_listings(cs, listings, 1)));
    assert(cs[0] == a && cs[1] == b && cs.len() == 2);
    assert(spec_plan(u, listings) == spec_plan_union(cs, listings, 0));
    assert(spec_plan_union(cs, listings, 0) == spec_plan(a, child_listings(cs, listings, 0))
        + spec_plan_union(cs, listings, 1));
    assert(spec_plan_union(cs, listings, 1) == spec_plan(b, child_listings(cs, listings, 1))
        + spec_plan_union(cs, listings, 2));
    assert(spec_plan(u, listings) =~= spec_plan(a, listings.subrange(0, atom_count(a) as int))
        + spec_plan(
        b,
        listings.subrange(atom_count(a) as int, (atom_count(a) + atom_count(b)) as int),
    ));
}

/// Cross identity: the plan of `Cross([a, b])` has `|plan(a)| * |plan(b)|`
/// datums, and the datum at index `i * |plan(b)| + j` carries the input
/// files of `plan(a)[i]` followed by those of `plan(b)[j]` — one output
/// datum for exactly one pair.
pub proof fn lemma_cross_identity(c: Input, a: Input, b: Input, listings: Seq<Seq<Seq<char>>>)
    requires
        c matches Input::Cross(cs) && cs@ == seq![a, b],
    ensures
        ({
            let pa = spec_plan(a, listings.subrange(0, atom_count(a) as int));
            let pb = spec_plan(
                b,
                listings.subrange(atom_count(a) as int, (atom_count(a) + atom_count(b)) as int),
            );
            let pc = spec_plan(c, listings);
            &&& pc.len() == pa.len() * pb.len()
            &&& forall|i: int, j: int|
                0 <= i < pa.len() && 0 <= j < pb.len() ==> pc[i * pb.len() + j] == pa[i] + pb[j]
        }),
{
    let cs = c->Cross_0@;
    assert(atoms_before(cs, 0) == 0);
    assert(atoms_before(cs, 1) == atom_count(a));
    assert(atoms_before(cs, 2) == atom_count(a) + atom_count(b));
    assert(child_listings(cs, listings, 0) == listings.subrange(0, atom_count(a) as int));
    assert(child_listings(cs, listings, 1) == listings.subrange(
        atom_count(a) as int,
        (atom_count(a) + atom_count(b)) as int,
    ));
    let pa = spec_plan(a, listings.subrange(0, atom_count(a) as int));
    let pb = spec_plan(
        b,
        listings.subrange(atom_count(a) as int, (atom_count(a) + atom_count(b)) as int),
    );
    assert(cs[0] == a && cs[1] == b && cs.len() == 2);
    assert(spec_plan_cross(cs, listings, 1) == pa);
    assert(spec_plan(c, listings) == spec_plan_cross(cs, listings, 2));
    assert(spec_plan_cross(cs, listings, 2) == spec_cross_join(spec_plan_cross(cs, listings, 1), pb));
    assert(spec_plan(c, listings) == spec_cross_join(pa, pb));
    assert forall|i: int, j: int| 0 <= i < pa.len() && 0 <= j < pb.len() implies spec_cross_join(
        pa,
        pb,
    )[i * pb.len() + j] == pa[i] + pb[j] by {
        vstd::arithmetic::div_mod::lemma_fundamental_div_mod_converse_div(
            i * pb.len() + j,
            pb.len() as int,
            i,
            j,
        );
        vstd::arithmetic::div_mod::lemma_fundamental_div_mod_converse_mod(
            i * pb.len() + j,
            pb.len() as int,
            i,
            j,
        );
        assert(0 <= i * pb.len() + j < pa.len() * pb.len()) by (nonlinear_arith)
            requires
                0 <= i < pa.len(),
                0 <= j < pb.len(),
        ;
    }
}

/// The URIs of the `Atom` leaves of an input expression, in traversal order:
/// the prefixes that must be listed before planning.
pub open spec fn spec_atom_uris(input: Input) -> Seq<Seq<char>>
    decreases input, 0int,
{
    match input {
        Input::Atom { uri, .. } => seq![uri@],
        Input::Cross(children) => spec_atom_uris_from(children@, 0),
        Input::Union(children) => spec_atom_uris_from(children@, 0),
    }
}

/// The atom URIs of the children `cs[k..]`.
pub open spec fn spec_atom_uris_from(cs: Seq<Input>, k: int) -> Seq<Seq<char>>
    decreases cs, cs.len() - k,
{
    if k < 0 || k >= cs.len() {
        Seq::empty()
    } else {
        spec_atom_uris(cs[k]) + spec_atom_uris_from(cs, k + 1)
    }
}

/// There is exactly one atom URI per atom.
pub proof fn lemma_atom_uris_count(input: Input)
    ensures
        spec_atom_uris(input).len() == atom_count(input),
    decreases input, 0int,
{
    match input {
        Input::Atom { .. } => {},
        Input::Cross(children) => lemma_atom_uris_count_from(children@, 0),
        Input::Union(children) => lemma_atom_uris_count_from(children@, 0),
    }
}

/// There is exactly one atom URI per atom, over a child list.
pub proof fn lemma_atom_uris_count_from(cs: Seq<Input>, k: int)
    ensures
        spec_atom_uris_from(cs, k).len() == atom_count_from(cs, k),
    decreases cs, cs.len() - k,
{
    if 0 <= k < cs.len() {
        lemma_atom_uris_count(cs[k]);
        lemma_atom_uris_count_from(cs, k + 1);
    }
}

/// The atom URIs of the children `cs[..k]`.
pub open spec fn spec_atom_uris_prefix(cs: Seq<Input>, k: int) -> Seq<Seq<char>>
    decreases k,
{
    if k <= 0 {
        Seq::empty()
    } else {
        spec_atom_uris_prefix(cs, k - 1) + spec_atom_uris(cs[k - 1])
    }
}

/// The atom URIs of the first `k` children followed by those of the rest are
/// the atom URIs of all the children.
proof fn lemma_atom_uris_prefix_full(cs: Seq<Input>, k: int)
    requires
        0 <= k <= cs.len(),
    ensures
        spec_atom_uris_prefix(cs, k) + spec_atom_uris_from(cs, k) == spec_atom_uris_from(cs, 0),
    decreases k,
{
    if k == 0 {
        assert(spec_atom_uris_prefix(cs, 0) + spec_atom_uris_from(cs, 0) =~= spec_atom_uris_from(
            cs,
            0,
        ));
    } else {
        lemma_atom_uris_prefix_full(cs, k - 1);
        assert(spec_atom_uris_prefix(cs, k) + spec_atom_uris_from(cs, k)
            =~= spec_atom_uris_prefix(cs, k - 1) + spec_atom_uris_from(cs, k - 1));
    }
}

/// Append the atom URIs of an input expression, in traversal order.
fn atom_uris_into(input: &Input, out: &mut Vec<String>)
    ensures
        final(out).deep_view() == old(out).deep_view() + spec_atom_uris(*input),
    decreases *input,
{
    let ghost prior = out.deep_view();
    match input {
        Input::Atom { uri, .. } => {
            out.push(uri.clone());
            proof {
                assert(out.deep_view() =~= prior + spec_atom_uris(*input));
            }
        },
        Input::Cross(children) | Input::Union(children) => {
            let ghost cs = children@;
            let mut k: usize = 0;
            while k < children.len()
                invariant
                    0 <= k <= cs.len(),
                    cs == children@,
                    decreases_to!(*input => *children),
                    out.deep_view() == prior + spec_atom_uris_prefix(cs, k as int),
                decreases cs.len() - k,
            {
                proof {
                    assert(decreases_to!(*children => children@[k as int]));
                }
                atom_uris_into(&children[k], out);
                proof {
                    assert(prior + spec_atom_uris_prefix(cs, k as int) + spec_atom_uris(
                        cs[k as int],
                    ) =~= prior + spec_atom_uris_prefix(cs, k + 1));
                }
                k += 1;
            }
            proof {
                lemma_atom_uris_prefix_full(cs, cs.len() as int);
                assert(spec_atom_uris_from(cs, cs.len() as int) =~= Seq::<Seq<char>>::empty());
                assert(spec_atom_uris_prefix(cs, cs.len() as int) + spec_atom_uris_from(
                    cs,
                    cs.len() as int,
                ) =~= spec_atom_uris_prefix(cs, cs.len() as int));
                assert(out.deep_view() =~= prior + spec_atom_uris(*input));
            }
        },
    }
}

/// The URIs that must be listed before planning `input`: one per `Atom`, in
/// the traversal order in which the planner consumes listings.
pub fn atom_uris(input: &Input) -> (r: Vec<String>)
    ensures
        r.deep_view() == spec_atom_uris(*input),
        r@.len() == atom_count(*input),
{
    let mut out: Vec<String> = Vec::new();
    proof {
        assert(out.deep_view() =~= Seq::<Seq<char>>::empty());
    }
    atom_uris_into(input, &mut out);
    proof {
        assert(Seq::<Seq<char>>::empty() + spec_atom_uris(*input) =~= spec_atom_uris(*input));
        lemma_atom_uris_count(*input);
    }
    out
}

} // verus!
