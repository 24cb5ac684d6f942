//! The barrier that brackets every stretch of DMA activity.
use vstd::prelude::*;

verus! {

/// Calls `core::sync::atomic::compiler_fence` with sequentially consistent
/// ordering. The call computes nothing, so nothing is claimed of it: it only
/// keeps the compiler from moving memory accesses across this point.
#[verifier::external_body]
pub(crate) fn compiler_fence_seq_cst() {
    core::sync::atomic::compiler_fence(core::sync::atomic::Ordering::SeqCst);
}

} // verus!
