//! A content-addressed blob repository: byte sequences are stored under their
//! BLAKE3 digest, in memory or in a directory with an append-only index.

pub mod archive;
pub mod blob;
pub mod chunk;
pub mod codec;
pub mod compress;
pub mod dir;
pub mod endian;
pub mod error;
pub mod feature;
pub mod file;
pub mod filter;
pub mod hasher;
pub mod hex;
pub mod input;
pub mod iter;
pub mod location;
pub mod lookup;
pub mod store;
pub mod sync;
pub mod sysexits;
pub mod temp;

pub use archive::{export_blobs, import_archive, import_entries};
pub use blob::{mime_type, Blob, BlobHash, BlobID, BLOB_HASH_LEN, DEFAULT_MIME_TYPE};
pub use chunk::{put_all, put_chunked, slice_chunks};
pub use codec::{decode_hash, encode_hash, parse_hash};
pub use compress::{GzipCompressor, Lz4Compressor};
pub use dir::{
    encode_into_path, DirectoryBlobStore, FileProbe, FileRemoval, InstallStep,
    PersistentBlobRecord, PutPlan, BLOB_FILE_MODE, INDEX_FILE_MODE, INDEX_FILE_NAME, RECORD_SIZE,
    STORE_DIR_NAME,
};
pub use error::{BlobHashError, BlobStoreError, IoError, IoErrorKind};
pub use feature::FEATURES;
pub use file::FileBlobStore;
pub use filter::{Filter, NoopFilter};
pub use hasher::{hash, BlobHasher};
pub use input::list_inputs;
pub use iter::IndexedBlobStoreIterator;
pub use location::{
    locate_store, locate_store_from_url, location_for, StoreLocation, StoreUrlError,
};
pub use store::{BlobStore, BlobStoreExt, BlobStoreOptions, IndexedBlobStore};
pub use sync::{copy_blobs, sync_blobs};
pub use sysexits::Sysexits;
pub use temp::EphemeralBlobStore;
