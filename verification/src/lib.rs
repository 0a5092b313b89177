//! Verified core of the Cybion cloud service: request validation, protocol
//! parsing, context selection, worker and pairing decisions, traffic
//! accounting and browser session bookkeeping.
use vstd::prelude::*;

pub mod accounts;
pub mod active_requests;
pub mod agent;
pub mod audits;
pub mod browser;
pub mod clock;
pub mod compaction;
pub mod context;
pub mod error;
pub mod history;
pub mod ids;
pub mod inputs;
pub mod integrations;
pub mod json;
pub mod protocol;
pub mod requests;
pub mod responses;
pub mod text;
pub mod thread_context;
pub mod threads;
pub mod tools;
pub mod traffic;
pub mod workers;

verus! {
} // verus!
