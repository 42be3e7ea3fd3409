//! A verified core for a containerized batch-job orchestrator.
//!
//! The library models the scheduler of a parallel data-processing service:
//! it turns a recursive pipeline input expression into a concrete list of
//! datums (work units), hands datums out to workers through a reservation
//! protocol that tolerates lost responses, derives aggregate job status, and
//! reconciles the persistent state against the live cluster (the
//! "babysitter"). All state transitions are specified and proved; the
//! unverifiable edges (storage transfer, process launching, HTTP, the real
//! database) live outside this crate and drive it with plain values.

pub mod babysitter;
pub mod connect_via;
pub mod deploy;
pub mod datum;
pub mod error;
pub mod ids;
pub mod input_file;
pub mod job;
pub mod kubernetes;
pub mod laws;
pub mod manifest;
pub mod output_file;
pub mod inputs;
pub mod pipeline;
pub mod rest_api;
pub mod secret;
pub mod start_job;
pub mod state;
pub mod storage;
pub mod status;
pub mod text;
pub mod worker;

