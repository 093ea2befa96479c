//! Digests as the command line reads and prints them.

use crate::blob::{base58_encoding, digest_of_text, BlobHash};
use crate::error::{IoError, IoErrorKind};
use vstd::prelude::*;
use vstd::string::StringExecFns;

verus! {

/// Reads a digest from text: canonical hex, or else base58 for 32 bytes.
/// Anything else is invalid input, and the failure quotes it.
pub fn decode_hash(blob_hash_str: &str) -> (r: Result<BlobHash, IoError>)
    ensures
        match digest_of_text(blob_hash_str) {
            Some(bytes) => r matches Ok(hash) && hash@ == bytes,
            None => r matches Err(failure) && failure.kind == IoErrorKind::InvalidInput
                && failure.message@ == "invalid blob hash: "@ + blob_hash_str@,
        },
{
    match BlobHash::parse(blob_hash_str) {
        Ok(hash) => Ok(hash),
        Err(_) => {
            let message = String::from_str("invalid blob hash: ").concat(blob_hash_str);
            Err(IoError { kind: IoErrorKind::InvalidInput, message })
        },
    }
}

/// Reads a digest from a command-line argument.
pub fn parse_hash(input: &str) -> (r: Result<BlobHash, IoError>)
    ensures
        match digest_of_text(input) {
            Some(bytes) => r matches Ok(hash) && hash@ == bytes,
            None => r matches Err(failure) && failure.kind == IoErrorKind::InvalidInput
                && failure.message@ == "invalid blob hash: "@ + input@,
        },
{
    decode_hash(input)
}

/// The text that the command line prints for a digest: base58.
pub fn encode_hash(blob_hash: BlobHash) -> (text: String)
    ensures
        text@ == base58_encoding(blob_hash@),
{
    blob_hash.to_base58()
}

} // verus!
