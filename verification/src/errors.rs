use vstd::prelude::*;

verus! {

/// The SQLite connection error type, carried through unchanged.
#[verifier::external_type_specification]
#[verifier::external_body]
#[verifier::reject_recursive_types(E)]
pub struct OutsideConnectionError<E>(tokio_rusqlite::Error<E>);

/// The SQLite database error type, carried through unchanged.
#[verifier::external_type_specification]
#[verifier::external_body]
pub struct OutsideSqliteError(rusqlite::Error);

/// The MessagePack encoding error type, carried through unchanged.
#[verifier::external_type_specification]
#[verifier::external_body]
pub struct OutsideEncodeError(rmp_serde::encode::Error);

/// The MessagePack decoding error type, carried through unchanged.
#[verifier::external_type_specification]
#[verifier::external_body]
pub struct OutsideDecodeError(rmp_serde::decode::Error);

/// Every way an operation of the sync engine can fail.
#[derive(Debug)]
#[allow(inconsistent_fields)]
pub enum SyncEngineError {
    /// No sequence number has been seeded for the account.
    NoSequenceReserved(String),
    /// A release named a sequence number other than the last one reserved.
    SequenceOutOfOrder { account: String, requested: i64, last_reserved: i64 },
    /// An envelope failed validation.
    InvalidEnvelope(String),
    /// The transaction XDR could not be parsed.
    XdrParse(String),
    /// The claimed source account differs from the one in the transaction.
    SourceAccountMismatch { claimed: String, actual: String },
    /// The reserved sequence differs from the one in the transaction.
    SequenceMismatch { account: String, reserved: i64, actual: i64 },
    /// No queued envelope has the given message id.
    EnvelopeNotFound(String),
    /// A settlement status change that the state machine forbids.
    InvalidStateTransition { from: String, to: String },
    /// A conflict that could not be settled off-chain.
    UnresolvedConflict(String),
    /// The database connection failed.
    ConnectionError(tokio_rusqlite::Error),
    /// The database reported an error.
    SqliteError(rusqlite::Error),
    /// An envelope could not be serialized.
    SerializationError(rmp_serde::encode::Error),
    /// Stored bytes could not be deserialized.
    DeserializationError(rmp_serde::decode::Error),
}

} // verus!
