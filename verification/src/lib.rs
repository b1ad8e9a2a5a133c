//! Offline transaction queueing, sequence-number reservation and
//! double-spend conflict detection for a mesh payment sync engine.

pub mod conflict;
pub mod envelope;
pub mod errors;
pub mod ids;
pub mod keyed;
pub mod metrics;
pub mod queue;
pub mod storage;
