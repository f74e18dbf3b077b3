//! Timestamps. Entries record when they were queued and when they left the
//! backlog into a batch; the scheduler never compares or otherwise reads
//! these values.

use vstd::prelude::*;

verus! {

#[verifier::external_type_specification]
#[verifier::external_body]
pub struct ExInstant(tokio::time::Instant);

/// Relies on `tokio::time::Instant::now`: an opaque timestamp for the present
/// moment. The result depends on the clock, so nothing is promised of it.
pub assume_specification[ tokio::time::Instant::now ]() -> (r: tokio::time::Instant);

} // verus!
