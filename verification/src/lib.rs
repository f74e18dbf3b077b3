//! Request admission and batch formation for a model-inference serving layer.
//!
//! Incoming generation requests are held in a FIFO backlog and periodically
//! assembled into bounded batches for an execution backend. The backlog, the
//! id counters and the batch-formation rules live in [`queue`]; the wire-facing
//! request and batch records live in [`request`]. Requests whose caller has
//! gone away (their response conduit has no receiver left) are silently
//! discarded at batch-formation time.

pub mod clock;
pub mod conduit;
pub mod laws;
pub mod queue;
pub mod request;
