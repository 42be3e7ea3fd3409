//! Identifier generation.
//!
//! Every row of the persistent store is keyed by a 128-bit identifier. The
//! identifiers are random, so nothing can be promised about a fresh one; the
//! store checks uniqueness on insert as the database's primary keys would.

use vstd::prelude::*;

verus! {

/// Relies on `uuid::Uuid::new_v4` (read back through `Uuid::as_u128`): a
/// freshly generated random version-4 UUID. Nothing is promised of the value.
#[verifier::external_body]
pub fn fresh_uuid() -> u128 {
    uuid::Uuid::new_v4().as_u128()
}

} // verus!
