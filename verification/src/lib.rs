//! Layout planning and bounded-concurrency scheduling for a byte-range
//! retrieval benchmark.
//!
//! The library computes fetch plans for two access patterns over remote
//! objects — contiguous equal-size blocks, and a striped columnar layout of
//! repeating page groups — and models the admission and aggregation decisions
//! of a scheduler that executes such a plan with a bounded number of units in
//! flight. All I/O stays outside the library; it works on plain sizes,
//! offsets and counts.

pub mod block;
pub mod columnar;
pub mod error;
pub mod inspect;
pub mod layout;
pub mod metrics;
pub mod scheduler;
pub mod upload;
