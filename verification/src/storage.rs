//! Cloud storage backends: backend selection by URI scheme, credential
//! selection, and S3 URL parsing.
//!
//! The transfers themselves (`list`, `sync_down`, `sync_up`) shell out to
//! external tools and happen outside the verified core, which receives
//! listings as plain values.

use vstd::prelude::*;

use crate::error::Error;
use crate::secret::Secret;
use crate::text::{contains_string, has_prefix, spec_contains_string, str_eq};

verus! {

/// Backend for talking to Google Cloud Storage. No secrets are used: the
/// worker's service account is expected to grant access.
#[derive(Debug)]
pub struct GoogleCloudStorage {}

impl GoogleCloudStorage {
    /// Create a new Google Cloud Storage backend.
    pub fn new(_secrets: &Vec<Secret>) -> (r: Result<GoogleCloudStorage, Error>)
        ensures
            r is Ok,
    {
        Ok(GoogleCloudStorage {  })
    }
}

/// The name of the first secret that maps the AWS access key id into the
/// environment, if any: the credentials assumed to hold the whole AWS key
/// pair.
pub open spec fn spec_s3_secret_name_from(secrets: Seq<Secret>, i: int) -> Option<Seq<char>>
    decreases secrets.len() - i,
{
    if i < 0 || i >= secrets.len() {
        None
    } else {
        match secrets[i] {
            Secret::Env { name, env_var, .. } => {
                if env_var@ == "AWS_ACCESS_KEY_ID"@ {
                    Some(name@)
                } else {
                    spec_s3_secret_name_from(secrets, i + 1)
                }
            },
            Secret::Mount { .. } => spec_s3_secret_name_from(secrets, i + 1),
        }
    }
}

/// Backend for talking to AWS S3. The core records which Kubernetes secret
/// holds the AWS key pair; fetching it and running the transfers happens
/// outside.
#[derive(Debug)]
pub struct S3Storage {
    /// The Kubernetes secret holding `AWS_ACCESS_KEY_ID` and
    /// `AWS_SECRET_ACCESS_KEY`, if any.
    pub secret_name: Option<String>,
}

impl S3Storage {
    /// Create a new S3 backend, picking the first secret that maps the AWS
    /// access key id into the environment; both halves of the key pair are
    /// assumed to live in that same secret.
    pub fn new(secrets: &Vec<Secret>) -> (r: Result<S3Storage, Error>)
        ensures
            match r {
                Ok(s3) => crate::datum::opt_view(s3.secret_name) == spec_s3_secret_name_from(
                    secrets@,
                    0,
                ),
                Err(_) => false,
            },
    {
        let mut i: usize = 0;
        while i < secrets.len()
            invariant
                0 <= i <= secrets@.len(),
                spec_s3_secret_name_from(secrets@, 0) == spec_s3_secret_name_from(
                    secrets@,
                    i as int,
                ),
            decreases secrets@.len() - i,
        {
            match &secrets[i] {
                Secret::Env { name, env_var, .. } => {
                    if str_eq(env_var.as_str(), "AWS_ACCESS_KEY_ID") {
                        return Ok(S3Storage { secret_name: Some(name.clone()) });
                    }
                },
                Secret::Mount { .. } => {},
            }
            i += 1;
        }
        Ok(S3Storage { secret_name: None })
    }

    /// Create a new S3 backend using the AWS key pair from the named
    /// Kubernetes secret.
    pub fn new_with_secret(secret_name: &str) -> (r: Result<S3Storage, Error>)
        ensures
            match r {
                Ok(s3) => crate::datum::opt_view(s3.secret_name) == Some(secret_name@),
                Err(_) => false,
            },
    {
        Ok(S3Storage { secret_name: Some(secret_name.to_owned()) })
    }
}

/// A cloud storage backend, chosen by URI scheme.
#[derive(Debug)]
pub enum CloudStorage {
    /// Google Cloud Storage, for `gs://` URIs.
    GoogleCloud(GoogleCloudStorage),
    /// AWS S3, for `s3://` URIs.
    S3(S3Storage),
}

impl CloudStorage {
    /// Get the storage backend for the specified URI, with any secrets the
    /// backend can use to authenticate.
    pub fn for_uri(uri: &str, secrets: &Vec<Secret>) -> (r: Result<CloudStorage, Error>)
        ensures
            ({
                let gs = uri@.len() >= 5 && uri@.subrange(0, 5) =~= "gs://"@;
                let s3 = uri@.len() >= 5 && uri@.subrange(0, 5) =~= "s3://"@;
                match r {
                    Ok(b) => (gs && b is GoogleCloud) || (!gs && s3 && (b matches
                    CloudStorage::S3(s) && crate::datum::opt_view(s.secret_name)
                        == spec_s3_secret_name_from(secrets@, 0))),
                    Err(e) => !gs && !s3 && e == Error::UnsupportedScheme,
                }
            }),
    {
        if has_prefix(uri, "gs://") {
            proof {
                reveal_strlit("gs://");
            }
            match GoogleCloudStorage::new(secrets) {
                Ok(b) => Ok(CloudStorage::GoogleCloud(b)),
                Err(e) => Err(e),
            }
        } else if has_prefix(uri, "s3://") {
            proof {
                reveal_strlit("gs://");
                reveal_strlit("s3://");
            }
            match S3Storage::new(secrets) {
                Ok(b) => Ok(CloudStorage::S3(b)),
                Err(e) => Err(e),
            }
        } else {
            proof {
                reveal_strlit("gs://");
                reveal_strlit("s3://");
            }
            Err(Error::UnsupportedScheme)
        }
    }
}

/// A listing with later repetitions of any entry removed: each distinct
/// entry once, in the order of its first appearance.
pub open spec fn spec_dedup(entries: Seq<Seq<char>>) -> Seq<Seq<char>>
    decreases entries.len(),
{
    if entries.len() == 0 {
        Seq::empty()
    } else {
        let front = spec_dedup(entries.drop_last());
        if front.contains(entries.last()) {
            front
        } else {
            front.push(entries.last())
        }
    }
}

/// Deduplicate a storage listing: the backends' enumerations are eventually
/// consistent and may repeat entries, but each top-level entry must become
/// one datum, so repetitions are dropped, keeping first appearances in
/// order.
pub fn dedup_listing(entries: &Vec<String>) -> (r: Vec<String>)
    ensures
        r.deep_view() == spec_dedup(entries.deep_view()),
{
    let ghost views = entries.deep_view();
    let mut r: Vec<String> = Vec::new();
    let mut i: usize = 0;
    proof {
        assert(r.deep_view() =~= spec_dedup(views.take(0)));
    }
    while i < entries.len()
        invariant
            0 <= i <= entries@.len(),
            views == entries.deep_view(),
            r.deep_view() == spec_dedup(views.take(i as int)),
        decreases entries@.len() - i,
    {
        proof {
            assert(views.take(i + 1).drop_last() =~= views.take(i as int));
            assert(views.take(i + 1).last() == views[i as int]);
        }
        let e = &entries[i];
        let present = contains_string(&r, e);
        proof {
            assert(present == r.deep_view().contains(e@)) by {
                if spec_contains_string(r@, e@) {
                    let w = choose|w: int| 0 <= w < r@.len() && r@[w]@ == e@;
                    assert(r.deep_view()[w] == e@);
                }
                if r.deep_view().contains(e@) {
                    let w = choose|w: int| 0 <= w < r.deep_view().len() && r.deep_view()[w] == e@;
                    assert(r@[w]@ == e@);
                }
            }
        }
        if !present {
            let ghost before = r.deep_view();
            r.push(e.clone());
            proof {
                assert(r.deep_view() =~= before.push(views[i as int]));
            }
        }
        i += 1;
    }
    proof {
        assert(views.take(entries@.len() as int) =~= views);
    }
    r
}

/// The position of the first `/` in `s` at or after position `i`, or `-1`.
pub open spec fn spec_first_slash_from(s: Seq<char>, i: int) -> int
    decreases s.len() - i,
{
    if i < 0 || i >= s.len() {
        -1
    } else if s[i] == '/' {
        i
    } else {
        spec_first_slash_from(s, i + 1)
    }
}

/// An S3 URL has the shape `s3://bucket[/key]`: the `s3://` scheme, a
/// non-empty bucket name free of slashes, and optionally a slash followed by
/// a key (which may itself contain slashes, or be empty).
pub open spec fn spec_s3_url_ok(url: Seq<char>) -> bool {
    &&& url.len() > 5
    &&& url.subrange(0, 5) == "s3://"@
    &&& spec_first_slash_from(url, 5) != 5
}

/// The bucket of a well-formed S3 URL.
pub open spec fn spec_s3_bucket(url: Seq<char>) -> Seq<char> {
    if spec_first_slash_from(url, 5) < 0 {
        url.subrange(5, url.len() as int)
    } else {
        url.subrange(5, spec_first_slash_from(url, 5))
    }
}

/// The key of a well-formed S3 URL: everything after the slash that ends the
/// bucket, or empty if there is none.
pub open spec fn spec_s3_key(url: Seq<char>) -> Seq<char> {
    if spec_first_slash_from(url, 5) < 0 {
        Seq::empty()
    } else {
        url.subrange(spec_first_slash_from(url, 5) + 1, url.len() as int)
    }
}

/// Parse an S3 URL into its bucket and key.
pub fn parse_s3_url(url: &str) -> (r: Result<(String, String), Error>)
    ensures
        match r {
            Ok(parts) => spec_s3_url_ok(url@) && parts.0@ == spec_s3_bucket(url@) && parts.1@
                == spec_s3_key(url@),
            Err(e) => !spec_s3_url_ok(url@) && e == Error::MalformedS3Url,
        },
{
    proof {
        reveal_strlit("s3://");
    }
    if !has_prefix(url, "s3://") {
        return Err(Error::MalformedS3Url);
    }
    let len = url.unicode_len();
    if len == 5 {
        return Err(Error::MalformedS3Url);
    }
    // Find the slash that ends the bucket, if any.
    let mut i: usize = 5;
    while i < len && url.get_char(i) != '/'
        invariant
            5 <= i <= len,
            len == url@.len(),
            spec_first_slash_from(url@, 5) == spec_first_slash_from(url@, i as int),
            i < len ==> forall|j: int| 5 <= j < i ==> url@[j] != '/',
        decreases len - i,
    {
        i += 1;
    }
    proof {
        if i < len {
            assert(spec_first_slash_from(url@, i as int) == i);
        }
    }
    if i == 5 {
        proof {
            assert(spec_first_slash_from(url@, 5) == 5);
        }
        return Err(Error::MalformedS3Url);
    }
    let bucket = url.substring_char(5, i).to_owned();
    let key = if i < len {
        url.substring_char(i + 1, len).to_owned()
    } else {
        "".to_owned()
    };
    proof {
        reveal_strlit("");
    }
    Ok((bucket, key))
}

} // verus!
