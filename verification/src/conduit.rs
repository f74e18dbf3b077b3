//! The response conduit: the per-entry channel used to stream generation
//! results back to the original caller. The scheduler never sends on it; it
//! only asks whether the receiving side is still alive.

use vstd::prelude::*;

verus! {

#[verifier::external_type_specification]
#[verifier::external_body]
#[verifier::reject_recursive_types(T)]
pub struct ExSender<T>(flume::Sender<T>);

/// Relies on `flume::Sender::is_disconnected`: true exactly when every
/// receiver of the channel has been dropped. The answer depends on state
/// outside this crate (the receiver may be dropped at any moment), so nothing
/// is promised of the result; batch formation states what holds for either
/// answer.
pub assume_specification<T>[ flume::Sender::<T>::is_disconnected ](s: &flume::Sender<T>) -> bool;

} // verus!
