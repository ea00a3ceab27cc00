//! The flow feature contract shared by runtime inference and the offline
//! training pipeline: the number, order and names of the features. The
//! extraction itself is floating-point arithmetic and lives outside the
//! verified library.

use vstd::prelude::*;

verus! {

/// Number of features per flow.
pub const FEATURE_COUNT: usize = 13;

/// Ordered feature names.
pub const FEATURE_NAMES: [&'static str; FEATURE_COUNT] = [
    "duration_secs",
    "packets",
    "bytes",
    "bytes_per_sec",
    "mean_packet_len",
    "min_len",
    "max_len",
    "syn",
    "fin",
    "rst",
    "ack",
    "protocol",
    "dst_port",
];

} // verus!
