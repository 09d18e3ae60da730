//! Contract-call marshalling and orchestration for an Ethereum-style node.
//!
//! The crate turns generic dynamic values into canonical contract-call
//! tokens and back, looks up method parameter types and event signatures
//! in a contract's interface document, hashes event signatures for log
//! filters, and models the shared connection / bound-contract lifecycle
//! together with the decision logic of single, batched and
//! confirmation-gated calls. Network transports themselves stay outside:
//! callers hand the library plain values and the outcomes of their
//! round-trips, and the library says exactly what must come back out.

pub mod abi;
pub mod address;
pub mod catalog;
pub mod codec;
pub mod deploy;
pub mod digits;
pub mod hexbytes;
pub mod error;
pub mod handle;
pub mod hasher;
pub mod uint256;
pub mod orchestrate;
pub mod records;
pub mod token;
pub mod value;
