//! Verified core of a container-dashboard adapter.
//!
//! The library holds the logic that decides what the adapter does: parsing
//! container labels into discovery records, the durable reconciliation state
//! with its JSON persistence format, the discovery/reconciliation engine, and
//! the onboarding orchestration decisions. All I/O (container runtime, HTTP,
//! files) lives outside the library and hands plain values in and out.

use vstd::prelude::*;

pub mod codec;
pub mod discovery;
pub mod engine;
pub mod onboarding;
pub mod state;
pub mod text;

verus! {

/// Schema version written into freshly persisted state documents.
pub fn default_version() -> (r: String)
    ensures
        r@ == "1.0"@,
{
    "1.0".to_owned()
}

} // verus!
