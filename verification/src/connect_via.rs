//! How a caller reaches the service and the database, and what that implies
//! for retries.

use vstd::prelude::*;

verus! {

/// How should we connect to the database and the service?
#[derive(Clone, Copy, Debug, PartialEq, Eq, Structural)]
pub enum ConnectVia {
    /// Assume we're connecting via a local proxy from outside the cluster.
    Proxy,
    /// Assume we're connecting via internal cluster networking and DNS.
    Cluster,
}

impl ConnectVia {
    /// Should failed connections be retried? Cluster-side callers retry,
    /// because cluster DNS is flaky and cluster operations may involve
    /// thousands of worker-hours; proxy-side callers are people at a
    /// terminal who want prompt feedback.
    pub fn should_retry_by_default(self) -> (r: bool)
        ensures
            r == (self == ConnectVia::Cluster),
    {
        match self {
            ConnectVia::Proxy => false,
            ConnectVia::Cluster => true,
        }
    }
}

} // verus!
