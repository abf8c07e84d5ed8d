//! The coordinator's configuration, as plain data.  Reading and parsing the
//! configuration file happens outside the library; the logic only consumes
//! these values.
use vstd::prelude::*;

verus! {

pub struct ServerConfig {
    pub bind_addr: String,
    pub ws_path: String,
    pub max_connections: usize,
    pub max_connections_per_ip: usize,
    pub max_frame_bytes: usize,
}

pub struct MonerodConfig {
    pub rpc_url: String,
    pub wallet_address: String,
    pub reserve_size: u8,
    pub rpc_timeout_ms: u64,
}

pub struct JobsConfig {
    pub job_ttl_ms: u64,
    pub template_refresh_interval_ms: u64,
    pub stale_job_grace_ms: u64,
}

pub struct LimitsConfig {
    pub submits_per_minute: u32,
    pub shares_per_minute: u32,
    pub messages_per_second: u32,
}

pub struct MetricsConfig {
    pub enable: bool,
    pub bind_addr: String,
    pub path: String,
}

pub struct Config {
    pub server: ServerConfig,
    pub monerod: MonerodConfig,
    pub jobs: JobsConfig,
    pub limits: LimitsConfig,
    pub metrics: MetricsConfig,
}

} // verus!
