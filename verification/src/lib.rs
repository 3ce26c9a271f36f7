//! Concurrent mount orchestration core: parsing of a mount-entry list,
//! per-attempt credential negotiation, and aggregation of attempt
//! outcomes into an overall verdict.
//!
//! The mount transport itself (dispatching the asynchronous attempts,
//! running the event loop, answering the backend's prompts) lives in the
//! surrounding binary; this crate holds the decisions it makes.

pub mod aggregate;
pub mod credentials;
pub mod entries;

pub use aggregate::AdsysMountError;
pub use aggregate::Aggregator;
pub use aggregate::AttemptOutcome;
pub use aggregate::AttemptResult;
pub use aggregate::FailureKind;
pub use credentials::CredentialNegotiator;
pub use credentials::CredentialReply;
pub use credentials::CredentialState;
pub use entries::MountRequest;
pub use entries::parse_entries;
pub use entries::parse_line;
