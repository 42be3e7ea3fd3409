//! The pipeline description: what to run, how parallel to run it, where the
//! input data lives and where the output goes.
//!
//! The on-disk JSON encoding of these types (and the fields that only the
//! cluster plumbing reads, such as resource requests) is handled outside the
//! verified core; the core receives plain values.

use std::collections::HashMap;

use vstd::prelude::*;

use crate::secret::Secret;

verus! {

/// Metadata about a pipeline.
#[derive(Clone, Debug)]
pub struct Pipeline {
    /// The name of this pipeline. Also may be used to default various things.
    pub name: String,
}

/// Instructions on how to transform the data.
#[derive(Debug)]
pub struct Transform {
    /// The command to run, with arguments.
    pub cmd: Vec<String>,
    /// The Docker image to run.
    pub image: String,
    /// When should we pull this image?
    pub image_pull_policy: Option<String>,
    /// Extra environment variables to pass in.
    pub env: HashMap<String, String>,
    /// Kubernetes secrets to make available to the worker containers.
    pub secrets: Vec<Secret>,
    /// The Kubernetes service account to use for this job.
    pub service_account: Option<String>,
}

/// How much parallelism should we use?
#[derive(Clone, Copy, Debug, PartialEq, Eq, Structural)]
pub struct ParallelismSpec {
    /// The number of workers to run.
    pub constant: u32,
}

/// How to distribute files from an input across workers. Only two kinds of
/// glob patterns are supported.
#[derive(Clone, Copy, Debug, PartialEq, Eq, Structural)]
pub enum Glob {
    /// Put each top-level directory entry (file, subdir) in its own datum.
    TopLevelDirectoryEntries,
    /// Put the entire repo in a single datum.
    WholeRepo,
}

/// The input data of a pipeline: a recursive expression over cloud-storage
/// prefixes.
#[derive(Debug)]
pub enum Input {
    /// Input from a cloud storage bucket.
    Atom {
        /// URI from which to fetch input data.
        uri: String,
        /// The repo name, used to construct a path of the form
        /// `/pfs/$repo/`, which will hold the downloaded data.
        repo: String,
        /// How to distribute the files in the repo over the workers.
        glob: Glob,
    },
    /// Cross product of other inputs, producing every possible combination.
    Cross(Vec<Input>),
    /// Union of other inputs.
    Union(Vec<Input>),
}

/// Where to put the data when we're done with it.
#[derive(Clone, Debug)]
pub struct Egress {
    /// A cloud bucket URI in which to place the output data.
    pub uri: String,
}

/// The parts of a pipeline specification that the verified core reads.
#[derive(Debug)]
pub struct PipelineSpec {
    /// Metadata about this pipeline.
    pub pipeline: Pipeline,
    /// Instructions on how to transform the data.
    pub transform: Transform,
    /// How much parallelism should we use?
    pub parallelism_spec: ParallelismSpec,
    /// The input data.
    pub input: Input,
    /// Where to put the data when we're done with it.
    pub egress: Egress,
}

} // verus!
