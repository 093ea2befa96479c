//! The ephemeral store: blobs kept in memory for the life of the value.

pub mod store;

pub use store::EphemeralBlobStore;
