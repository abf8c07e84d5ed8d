//! Verified core of a coordinator that hands browser miners work units carved
//! from a Monero block template, checks their submissions, and forwards
//! solutions that meet the network target.
pub mod codec;
pub mod config;
pub mod error;
pub mod handler;
pub mod hexfmt;
pub mod jobs;
pub mod metrics;
pub mod protocol;
pub mod ratelimit;
pub mod rpc;
pub mod session;
pub mod strutil;
pub mod target;
pub mod template;
pub mod validator;
