//! An event-driven transaction scheduler for a fee market with a dynamic base
//! fee and a priority tip. The scheduler ingests fee-market events, keeps a
//! rolling window of recent base fees, and decides for each pending
//! transaction whether to submit it, reprice it upward, or let it wait.

pub mod events;
pub mod limiter;
pub mod model;
pub mod nonce;
pub mod scheduler;

use vstd::prelude::*;

verus! {

/// Upper bound on base fees, priority fees and spike thresholds that the
/// statistics of the fee model are defined over. Keeping every sample below
/// this bound lets the window statistics (sums of squares scaled by the
/// window length) be computed exactly in 128-bit arithmetic.
pub const MAX_BASE_FEE: u64 = 0x20_0000_0000_0000;

/// Upper bound on the capacity of the fee-model window.
pub const MAX_WINDOW: usize = 1024;

} // verus!
