//! The signed envelope in which a transaction travels through the mesh.

use vstd::prelude::*;

verus! {

/// A signed, already-built Stellar transaction ready for gossip. `tx_xdr` is
/// the opaque base64 XDR of the transaction.
#[derive(Debug, Clone, PartialEq, Eq)]
pub struct TransactionEnvelope {
    pub message_id: [u8; 32],
    pub origin_pubkey: [u8; 32],
    pub tx_xdr: String,
    pub ttl_hops: u8,
    pub timestamp: u64,
    pub signature: [u8; 64],
}

} // verus!
