//! Protocol-level counters of the sync engine, to be exposed by whichever
//! binary embeds it (mobile wallet, relay node).

use std::sync::atomic::AtomicUsize;

use vstd::prelude::*;

verus! {

/// Running totals of what the engine has done.
#[derive(Debug, Default)]
pub struct SyncEngineMetrics {
    pub queued_total: AtomicUsize,
    pub settled_total: AtomicUsize,
    pub failed_total: AtomicUsize,
    pub conflicts_detected: AtomicUsize,
    pub disputes_escalated: AtomicUsize,
}

} // verus!
