//! The shared status enumeration for jobs, datums and output files.

use vstd::prelude::*;

verus! {

/// Possible status values.
#[derive(Clone, Copy, Debug, PartialEq, Eq, Structural)]
pub enum Status {
    /// This record is ready to be processed.
    Ready,
    /// This record is currently being processed.
    Running,
    /// This record has been successfully processed.
    Done,
    /// This record could not be processed.
    Error,
    /// This record has been canceled, and further processing should be
    /// stopped as soon as convenient.
    Canceled,
}

impl Status {
    /// True if this has completed successfully, failed beyond recovery, or
    /// been cancelled.
    pub open spec fn spec_has_finished(self) -> bool {
        match self {
            Status::Ready | Status::Running => false,
            Status::Done | Status::Error | Status::Canceled => true,
        }
    }

    /// Return true if this has completed successfully, failed beyond recovery,
    /// or been cancelled.
    #[verifier::when_used_as_spec(spec_has_finished)]
    pub fn has_finished(self) -> (r: bool)
        ensures
            r == self.spec_has_finished(),
    {
        match self {
            Status::Ready | Status::Running => false,
            Status::Done | Status::Error | Status::Canceled => true,
        }
    }

    /// The lower-case name of this status, as it appears on the wire and in
    /// the persistent store.
    pub fn name(self) -> (r: String)
        ensures
            r@ == self.spec_name(),
    {
        match self {
            Status::Ready => "ready".to_owned(),
            Status::Running => "running".to_owned(),
            Status::Done => "done".to_owned(),
            Status::Error => "error".to_owned(),
            Status::Canceled => "canceled".to_owned(),
        }
    }

    /// The name of each status value.
    pub open spec fn spec_name(self) -> Seq<char> {
        match self {
            Status::Ready => "ready"@,
            Status::Running => "running"@,
            Status::Done => "done"@,
            Status::Error => "error"@,
            Status::Canceled => "canceled"@,
        }
    }
}

} // verus!
