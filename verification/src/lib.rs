//! Verified core of a referee-list normalization pipeline.
//!
//! Raw "mandatory referee" rows are deduplicated, chunked into batches,
//! rendered into prompts for an external extraction oracle, parsed back,
//! partitioned into successes and failures, and finally pruned against a
//! committee roster.  Everything here is pure logic on plain values; the
//! surrounding binary performs the file and network I/O and feeds the
//! results through these functions.

pub mod chunk;
pub mod codec;
pub mod dedupe;
pub mod errors;
pub mod extractor;
pub mod index;
pub mod numbers;
pub mod pipeline;
pub mod prune;
pub mod prompt;
pub mod record;
pub mod store;
pub mod transcript;
pub mod text;

use vstd::prelude::*;

verus! {

/// The fixed number of records handed to the oracle per request.
pub const BATCH_SIZE: usize = 5;

/// The bound on oracle invocations per batch before the batch is marked
/// failed.
pub const MAX_ATTEMPTS: usize = 3;

} // verus!
