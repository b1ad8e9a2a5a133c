//! Offline construction and signing of transaction envelopes, coupled to
//! sequence-number reservation so that no two envelopes of an account are
//! signed without distinct sequence numbers reserved first.

use vstd::prelude::*;

verus! {

/// Builds and signs envelopes for offline-queued transactions.
pub struct OfflineEnvelopeBuilder;

} // verus!
