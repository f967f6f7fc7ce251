//! Canonical binary encoding and identity hashing of Ethereum-family block
//! headers, transaction receipts and event logs.
//!
//! Every encoder is proved to emit exactly the recursive length-prefix form
//! that the chain's consensus rules fix, every decoder to accept exactly those
//! byte strings, and the two to be inverse to each other.

pub mod bigendian;
pub mod error;
pub mod framing;
pub mod hashing;
pub mod header;
pub mod laws;
pub mod layout;
pub mod log;
pub mod receipt;
pub mod writer;

pub use bigendian::U256;
pub use error::{DecodeError, LengthError};
pub use hashing::{keccak256, keccak512, sha256};
pub use header::BlockHeader;
pub use log::LogEntry;
pub use receipt::Receipt;
