//! The directory store: blob files beside an append-only index.

pub mod record;
pub mod store;

pub use record::{PersistentBlobRecord, RECORD_SIZE};
pub use store::{
    encode_into_path, DirectoryBlobStore, FileProbe, FileRemoval, InstallStep, PutPlan,
    BLOB_FILE_MODE, INDEX_FILE_MODE, INDEX_FILE_NAME, STORE_DIR_NAME,
};
