//! Sizes shared by the whole pipeline.

use vstd::prelude::*;

verus! {

/// Width of the fixed buffer that holds a question name, and of a blocklist key.
pub const PACKET_DATA_BUF_LEN: usize = 128;

} // verus!
