pub mod builder;
pub mod types;

pub use builder::OfflineEnvelopeBuilder;
pub use types::TransactionEnvelope;
