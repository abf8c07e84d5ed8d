//! Data carried over the daemon's JSON-RPC interface.  The HTTP client that
//! moves these values lives outside the library; the coordinator's logic only
//! reads and builds them.
use vstd::prelude::*;

verus! {

/// Parameters of a `get_block_template` call.
pub struct GetBlockTemplateParams {
    pub wallet_address: String,
    pub reserve_size: u8,
}

/// A block template as the daemon returns it.
pub struct BlockTemplate {
    pub blockhashing_blob: String,
    pub blocktemplate_blob: String,
    pub difficulty: u64,
    pub expected_reward: u64,
    pub height: u64,
    pub prev_hash: String,
    pub reserved_offset: usize,
    pub seed_hash: String,
    pub status: String,
}

/// The part of a `get_info` reply the coordinator reads.
pub struct DaemonInfo {
    pub height: u64,
    pub top_block_hash: String,
    pub status: String,
    pub version: String,
}

} // verus!
