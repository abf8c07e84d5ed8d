//! The wire protocol's message types.  Text frames carry JSON objects with a
//! `type` discriminant; the codec that prints and parses them is in
//! `crate::codec`.  The protocol fixes one canonical frame form (field order
//! and spacing as the codec prints them); a client must send frames in that
//! form, and anything else is answered as a format error.
use vstd::prelude::*;
use vstd::string::StringExecFns;

verus! {

/// Generic envelope around a payload: discriminant, protocol version, and an
/// optional correlation identifier.
pub struct MessageEnvelope<T> {
    pub msg_type: String,
    pub v: u8,
    pub id: Option<String>,
    pub payload: T,
}

impl<T> MessageEnvelope<T> {
    /// An envelope under protocol version 1.
    pub fn new(msg_type: &str, payload: T, id: Option<String>) -> (r: MessageEnvelope<T>)
        ensures
            r.msg_type@ == msg_type@,
            r.v == 1,
            r.id == id,
            r.payload == payload,
    {
        MessageEnvelope { msg_type: String::from_str(msg_type), v: 1, id, payload }
    }
}

pub struct HelloPayload {
    pub miner_version: String,
    pub threads: u8,
    pub site_token: Option<String>,
    pub user_agent_hint: Option<String>,
    pub supports_binary: Option<bool>,
    pub randomx_mode: Option<String>,
}

pub struct SubmitPayload {
    pub job_id: String,
    pub nonce: String,
}

pub struct SharePayload {
    pub job_id: String,
    pub nonce: u32,
    pub result_hash_hex: String,
}

pub struct PingPayload {
}

/// Messages a client sends.
pub enum ClientMessage {
    Hello { v: u8, id: Option<String>, payload: HelloPayload },
    Submit { v: u8, id: String, payload: SubmitPayload },
    Share { v: u8, id: Option<String>, payload: SharePayload },
    Ping { v: u8, id: String, payload: PingPayload },
}

pub struct PolicyPayload {
    pub job_ttl_ms: u64,
    pub max_submits_per_min: u32,
    pub max_shares_per_min: u32,
}

pub struct StatsPayload {
    pub session_id: String,
    pub submits_per_minute: u32,
    pub messages_per_second: u32,
    pub policy: PolicyPayload,
    pub server_time_ms: u64,
    pub tip_height: u64,
}

pub struct JobPayload {
    pub job_id: String,
    pub blob_hex: String,
    pub reserved_offset: usize,
    pub reserved_value_hex: String,
    pub target_hex: String,
    pub height: u64,
    pub seed_hash: String,
    pub expires_at_ms: u64,
    pub share_target_hex: Option<String>,
    pub algo: String,
}

pub struct SubmitResultPayload {
    pub status: SubmitStatus,
    pub message: Option<String>,
}

pub struct ErrorPayload {
    pub code: ErrorCode,
    pub message: String,
}

pub struct PongPayload {
}

/// Messages the server sends.
pub enum ServerMessage {
    Stats { v: u8, id: Option<String>, payload: StatsPayload },
    Job { v: u8, id: Option<String>, payload: JobPayload },
    SubmitResult { v: u8, id: String, payload: SubmitResultPayload },
    Error { v: u8, id: Option<String>, payload: ErrorPayload },
    Pong { v: u8, id: String, payload: PongPayload },
}

#[derive(Clone, Copy, PartialEq, Eq, Structural, Debug)]
pub enum SubmitStatus {
    Accepted,
    Rejected,
    Stale,
    Error,
}

#[derive(Clone, Copy, PartialEq, Eq, Structural, Debug)]
pub enum ErrorCode {
    BadFormat,
    Unauthorized,
    RateLimit,
    StaleJob,
    BadJob,
    BadReserved,
    BadPow,
    Internal,
    RpcDown,
}

impl ServerMessage {
    /// An error frame under protocol version 1.
    pub fn error(id: Option<String>, code: ErrorCode, message: &str) -> (r: ServerMessage)
        ensures
            (r matches ServerMessage::Error { v, id: rid, payload } && v == 1 && rid == id
                && payload.code == code && payload.message@ == message@),
    {
        ServerMessage::Error {
            v: 1,
            id,
            payload: ErrorPayload { code, message: String::from_str(message) },
        }
    }
}

} // verus!
