pub mod priority;
pub mod sequence;

pub use priority::{OutboundTxQueue, TxPriority};
pub use sequence::{MultisigAccountRegistry, SequenceReservationManager};
