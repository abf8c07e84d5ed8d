//! The coordinator's error taxonomy.
use vstd::prelude::*;
use vstd::string::StringExecFns;

verus! {

/// One failure, classified: fatal configuration errors, transient RPC
/// failures, per-session WebSocket and rate-limit errors, submission
/// validation failures, and admission denials.
pub enum CoordinatorError {
    Config(String),
    Rpc(String),
    WebSocket(String),
    Validation(String),
    RateLimit(String),
    Session(String),
}

impl CoordinatorError {
    /// The detail string carried by the error.
    pub open spec fn spec_detail(self) -> Seq<char> {
        match self {
            CoordinatorError::Config(s) => s@,
            CoordinatorError::Rpc(s) => s@,
            CoordinatorError::WebSocket(s) => s@,
            CoordinatorError::Validation(s) => s@,
            CoordinatorError::RateLimit(s) => s@,
            CoordinatorError::Session(s) => s@,
        }
    }

    /// The category prefix of the printed form.
    pub open spec fn spec_prefix(self) -> Seq<char> {
        match self {
            CoordinatorError::Config(_) => "Configuration error: "@,
            CoordinatorError::Rpc(_) => "RPC error: "@,
            CoordinatorError::WebSocket(_) => "WebSocket error: "@,
            CoordinatorError::Validation(_) => "Validation error: "@,
            CoordinatorError::RateLimit(_) => "Rate limit exceeded: "@,
            CoordinatorError::Session(_) => "Session error: "@,
        }
    }

    /// The printed form: the category prefix, then the detail.
    pub fn message(&self) -> (r: String)
        ensures
            r@ == self.spec_prefix() + self.spec_detail(),
    {
        let mut out: String = match self {
            CoordinatorError::Config(_) => String::from_str("Configuration error: "),
            CoordinatorError::Rpc(_) => String::from_str("RPC error: "),
            CoordinatorError::WebSocket(_) => String::from_str("WebSocket error: "),
            CoordinatorError::Validation(_) => String::from_str("Validation error: "),
            CoordinatorError::RateLimit(_) => String::from_str("Rate limit exceeded: "),
            CoordinatorError::Session(_) => String::from_str("Session error: "),
        };
        match self {
            CoordinatorError::Config(s) => out.append(s.as_str()),
            CoordinatorError::Rpc(s) => out.append(s.as_str()),
            CoordinatorError::WebSocket(s) => out.append(s.as_str()),
            CoordinatorError::Validation(s) => out.append(s.as_str()),
            CoordinatorError::RateLimit(s) => out.append(s.as_str()),
            CoordinatorError::Session(s) => out.append(s.as_str()),
        }
        out
    }
}

} // verus!
