//! The library's error taxonomy.
//!
//! Transport-level failures (database connectivity, HTTP, subprocesses) do
//! not exist inside the verified core; what remains are validation errors,
//! state-machine violations, and uniqueness conflicts that the persistent
//! store would report.

use vstd::prelude::*;

verus! {

/// Everything that can go wrong inside the verified core.
#[derive(Clone, Copy, Debug, PartialEq, Eq, Structural)]
pub enum Error {
    /// A URI contained no `/` at all, so no basename can be derived.
    NoSlashInUri,
    /// A URI ended with `/` where a non-empty basename was required.
    UriEndsWithSlash,
    /// No storage backend is registered for the URI's scheme.
    UnsupportedScheme,
    /// An S3 URL did not have the shape `s3://bucket[/key]`.
    MalformedS3Url,
    /// A record with the requested id does not exist.
    NotFound,
    /// A datum patch combined a status with inconsistent diagnostic fields.
    InvalidDatumPatch,
    /// An output-file patch used a status other than done or error.
    InvalidOutputFilePatch,
    /// Only jobs with status error may be retried.
    NotRetryable,
    /// A freshly minted id collided with an existing row.
    DuplicateId,
    /// A job name collided with an existing job's name.
    DuplicateJobName,
}

impl Error {
    /// A human-readable description of the error.
    pub fn message(self) -> (r: String)
        ensures
            r@ == self.spec_message(),
    {
        match self {
            Error::NoSlashInUri => "URI contains no '/'".to_owned(),
            Error::UriEndsWithSlash => "URI ends with '/'".to_owned(),
            Error::UnsupportedScheme => "cannot find storage backend for URI".to_owned(),
            Error::MalformedS3Url => "the S3 URL could not be parsed".to_owned(),
            Error::NotFound => "record not found".to_owned(),
            Error::InvalidDatumPatch => {
                "cannot update datum with this combination of fields".to_owned()
            },
            Error::InvalidOutputFilePatch => {
                "cannot patch output file with this status".to_owned()
            },
            Error::NotRetryable => "can only retry jobs with status 'error'".to_owned(),
            Error::DuplicateId => "id already in use".to_owned(),
            Error::DuplicateJobName => "job name already in use".to_owned(),
        }
    }

    /// The description of each error value.
    pub open spec fn spec_message(self) -> Seq<char> {
        match self {
            Error::NoSlashInUri => "URI contains no '/'"@,
            Error::UriEndsWithSlash => "URI ends with '/'"@,
            Error::UnsupportedScheme => "cannot find storage backend for URI"@,
            Error::MalformedS3Url => "the S3 URL could not be parsed"@,
            Error::NotFound => "record not found"@,
            Error::InvalidDatumPatch => "cannot update datum with this combination of fields"@,
            Error::InvalidOutputFilePatch => "cannot patch output file with this status"@,
            Error::NotRetryable => "can only retry jobs with status 'error'"@,
            Error::DuplicateId => "id already in use"@,
            Error::DuplicateJobName => "job name already in use"@,
        }
    }
}

} // verus!
