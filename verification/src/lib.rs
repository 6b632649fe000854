//! Batch payment pipeline for an intraledger payment service.
//!
//! A batch of intended payments is loaded from delimited text, each
//! recipient is resolved to a wallet handle, each human-denominated
//! amount is converted to the ledger's atomic unit at a fixed price,
//! and the payments are executed in order with fail-fast semantics.
//! Every stage is a verified transformation on plain data; the network
//! round-trips that feed the resolver and the executor are driven by
//! the (unverified) application around this library.

pub mod batch;
pub mod convert;
pub mod decimal;
pub mod laws;
pub mod loader;
pub mod record;
pub mod response;

pub use batch::Batch;
pub use batch::BatchOutcome;
pub use batch::PaymentOrder;
pub use batch::ResolveError;
pub use batch::Stage;
pub use decimal::Decimal;
pub use loader::LoadError;
pub use record::Outcome;
pub use record::PaymentRecord;
