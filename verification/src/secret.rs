//! Secrets used to access various resources.

use vstd::prelude::*;

verus! {

/// A Kubernetes-managed secret used to access some resource, and how it
/// should be mapped into a container. Secrets contain key-value pairs.
#[derive(Clone, Debug)]
pub enum Secret {
    /// A secret that should be mounted as a directory of files.
    Mount {
        /// The name of the Kubernetes secret to use.
        name: String,
        /// The directory path to mount it as.
        mount_path: String,
    },
    /// A secret which should have a single key extracted and mapped to an
    /// environment variable.
    Env {
        /// The name of the Kubernetes secret to use.
        name: String,
        /// The key within the secret to use.
        key: String,
        /// The environment variable name into which to place the value.
        env_var: String,
    },
}

} // verus!
