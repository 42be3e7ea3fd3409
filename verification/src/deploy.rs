//! Deployment configuration: the resource defaults for the service itself.

use vstd::prelude::*;

verus! {

/// Per-environment configuration for deploying the service.
#[derive(Debug)]
pub struct Config {
    /// The name of the environment: `development` or `production`.
    pub env: String,
    /// The amount of disk to allocate for the database.
    pub postgres_storage: String,
    /// The amount of RAM to request for the database.
    pub postgres_memory: String,
    /// The number of CPUs to request for the database.
    pub postgres_cpu: String,
    /// The number of service replicas to run.
    pub falconerid_replicas: u16,
    /// The amount of RAM to request for each service replica.
    pub falconerid_memory: String,
    /// The number of CPUs to request for each service replica.
    pub falconerid_cpu: String,
    /// Should the service image come from the local Docker daemon?
    pub use_local_image: bool,
    /// The version of the service to deploy.
    pub version: String,
}

/// The default deployment config: a small single-replica setup for
/// development, and a larger two-replica setup for production.
pub fn default_config(development: bool, version: &str) -> (r: Config)
    ensures
        r.version@ == version@,
        development ==> {
            &&& r.env@ == "development"@
            &&& r.postgres_storage@ == "100Mi"@
            &&& r.postgres_memory@ == "256Mi"@
            &&& r.postgres_cpu@ == "100m"@
            &&& r.falconerid_replicas == 1u16
            &&& r.falconerid_memory@ == "64Mi"@
            &&& r.falconerid_cpu@ == "100m"@
            &&& r.use_local_image
        },
        !development ==> {
            &&& r.env@ == "production"@
            &&& r.postgres_storage@ == "10Gi"@
            &&& r.postgres_memory@ == "1Gi"@
            &&& r.postgres_cpu@ == "500m"@
            &&& r.falconerid_replicas == 2u16
            &&& r.falconerid_memory@ == "256Mi"@
            &&& r.falconerid_cpu@ == "450m"@
            &&& !r.use_local_image
        },
{
    if development {
        Config {
            env: "development".to_owned(),
            postgres_storage: "100Mi".to_owned(),
            postgres_memory: "256Mi".to_owned(),
            postgres_cpu: "100m".to_owned(),
            falconerid_replicas: 1,
            falconerid_memory: "64Mi".to_owned(),
            falconerid_cpu: "100m".to_owned(),
            use_local_image: true,
            version: version.to_owned(),
        }
    } else {
        Config {
            env: "production".to_owned(),
            postgres_storage: "10Gi".to_owned(),
            postgres_memory: "1Gi".to_owned(),
            postgres_cpu: "500m".to_owned(),
            falconerid_replicas: 2,
            falconerid_memory: "256Mi".to_owned(),
            falconerid_cpu: "450m".to_owned(),
            use_local_image: false,
            version: version.to_owned(),
        }
    }
}

} // verus!
