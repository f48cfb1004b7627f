//! A persistent, append-only store for a linear chain of proof-of-work
//! block headers.  The store validates each candidate header against the
//! current tip (connectivity) and against the header's own declared
//! target (proof of work), mirrors the chain in a length-prefixed byte
//! log, and summarizes its tip as a short locator for peer
//! synchronization.  Hashing, proof-of-work comparison and the header
//! codec itself are supplied by the `bitcoin` crate behind narrow trusted
//! wrappers; everything around them is verified.

pub mod bridge;
pub mod codec;
pub mod laws;
pub mod store;
pub mod types;

pub use store::HeaderStore;
pub use types::Header;
pub use types::HeaderData;
pub use types::Network;
pub use types::StoreError;
