//! The single-file store: a backend that is declared and not yet provided.

pub mod store;

pub use store::FileBlobStore;
