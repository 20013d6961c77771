//! Identifier types shared by the scheduler and the cache manager.

use vstd::prelude::*;

verus! {

/// Index of a block in the cache pool.
pub type BlockId = usize;

/// Caller-chosen unique name of a request.
pub type RequestId = String;

/// Number handed out at admission, strictly increasing.
pub type SequenceId = u64;

/// Scheduling priority; a larger value is served first.
pub type Priority = i32;

} // verus!
