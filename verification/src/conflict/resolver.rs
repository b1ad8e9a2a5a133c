//! Off-chain resolution of a detected [`Conflict`].
//!
//! A resolution algorithm must decide, deterministically and identically on
//! every node that runs it, which envelope of a conflict is valid, from
//! envelope timestamps, relay-chain proofs of how far each side propagated,
//! and consensus among the relays that observed each side. No such algorithm
//! is in place: every conflict is unresolved off-chain, and callers move both
//! sides to the disputed settlement status for on-chain arbitration.

use vstd::prelude::*;

use crate::conflict::detector::Conflict;
use crate::errors::SyncEngineError;

verus! {

/// The character of a hexadecimal digit `d` (`0 <= d < 16`), lower case.
pub open spec fn hex_digit(d: int) -> char {
    if d < 10 {
        (48 + d) as char
    } else {
        (87 + d) as char
    }
}

/// Lower-case hexadecimal text of `bytes`: two digits per byte, the high
/// half first.
pub open spec fn hex_lower(bytes: Seq<u8>) -> Seq<char>
    decreases bytes.len(),
{
    if bytes.len() == 0 {
        Seq::empty()
    } else {
        seq![hex_digit(bytes[0] as int / 16), hex_digit(bytes[0] as int % 16)] + hex_lower(bytes.drop_first())
    }
}

/// Decimal digits of `n`, without leading zeros.
pub open spec fn decimal_digits(n: nat) -> Seq<char>
    decreases n,
{
    if n < 10 {
        seq![(48 + n) as char]
    } else {
        decimal_digits(n / 10) + seq![(48 + n % 10) as char]
    }
}

/// Decimal text of `n`, with a minus sign where it is negative.
pub open spec fn decimal(n: int) -> Seq<char> {
    if n < 0 {
        seq!['-'] + decimal_digits((-n) as nat)
    } else {
        decimal_digits(n as nat)
    }
}

/// The message that reports `conflict` as unresolved off-chain.
pub open spec fn unresolved_message(conflict: (Seq<char>, i64, [u8; 32], [u8; 32])) -> Seq<char> {
    "conflict on account "@ + conflict.0 + " sequence "@ + decimal(conflict.1 as int)
        + " between "@ + hex_lower(conflict.2@) + " and "@ + hex_lower(conflict.3@)
        + " requires relay-chain proof consensus, which is not yet implemented"@
}

/// `hex::encode` on a 32-byte id. The crate documents the result as the
/// lower-case hexadecimal text of the bytes, which is what this claims.
#[verifier::external_body]
fn hex_encode(bytes: &[u8; 32]) -> (text: String)
    ensures
        text@ == hex_lower(bytes@),
{
    hex::encode(bytes)
}

/// `i64::to_string`: claims the decimal text of `n`, as std documents for
/// integer `Display`.
#[verifier::external_body]
fn decimal_text(n: i64) -> (text: String)
    ensures
        text@ == decimal(n as int),
{
    n.to_string()
}

/// Attempts to resolve `conflict` off-chain, returning the message id of the
/// envelope found valid. No conflict can be resolved off-chain yet: the
/// result is always the unresolved-conflict error naming the conflict.
pub fn resolve_conflict(conflict: &Conflict) -> (resolved: Result<[u8; 32], SyncEngineError>)
    ensures
        resolved matches Err(SyncEngineError::UnresolvedConflict(message)) && message@
            == unresolved_message(conflict@),
{
    let mut message = "conflict on account ".to_owned();
    message.append(conflict.source_account.as_str());
    message.append(" sequence ");
    let sequence = decimal_text(conflict.sequence);
    message.append(sequence.as_str());
    message.append(" between ");
    let first = hex_encode(&conflict.envelope_a);
    message.append(first.as_str());
    message.append(" and ");
    let second = hex_encode(&conflict.envelope_b);
    message.append(second.as_str());
    message.append(" requires relay-chain proof consensus, which is not yet implemented");
    Err(SyncEngineError::UnresolvedConflict(message))
}

} // verus!
