//! Digests and blob handles.

use crate::error::BlobHashError;
use crate::hex::{
    decode_hex, encode_hex, hex_chars, hex_decode, hex_encode, is_canonical_hex,
    lemma_hex_decode_encode, lemma_hex_encode_decode, lemma_hex_encode_is_canonical,
};
use vstd::prelude::*;
use vstd::slice::slice_subrange;
use vstd::std_specs::cmp::PartialEqSpecImpl;
use vstd::std_specs::convert::FromSpecImpl;
use vstd::string::StringSliceAdditionalSpecFns;

verus! {

/// Number of bytes in a digest.
pub const BLOB_HASH_LEN: usize = 32;

/// The content type reported when nothing better is known.
pub const DEFAULT_MIME_TYPE: &'static str = "application/octet-stream";

/// A blob's sequence number within one store: 1 for the first blob put, 0
/// where the store assigns none.
pub type BlobID = usize;

/// A blob's BLAKE3 digest: 32 raw bytes.
#[derive(Clone, Copy, Debug, Hash)]
pub struct BlobHash(pub [u8; 32]);

impl View for BlobHash {
    type V = Seq<u8>;

    open spec fn view(&self) -> Seq<u8> {
        self.0@
    }
}

impl DeepView for BlobHash {
    type V = Seq<u8>;

    open spec fn deep_view(&self) -> Seq<u8> {
        self.0@
    }
}

/// Text that is the canonical written form of some digest: 64 lowercase hex
/// digits.
pub open spec fn is_digest_hex(text: Seq<u8>) -> bool {
    text.len() == 64 && is_canonical_hex(text)
}

/// The text that `String::from_utf8_lossy` makes of `bytes`: the bytes read as
/// UTF-8, each malformed part replaced by U+FFFD.
pub uninterp spec fn utf8_lossy(bytes: Seq<u8>) -> Seq<char>;

/// The bytes that `bs58::decode` reads out of `text` in the Bitcoin
/// alphabet, or `None` where it reports an error.
pub uninterp spec fn base58_decoding(text: Seq<char>) -> Option<Seq<u8>>;

/// The text that `bs58::encode` writes for `bytes` in the Bitcoin alphabet.
pub uninterp spec fn base58_encoding(bytes: Seq<u8>) -> Seq<char>;

/// The MIME type that `infer::get` recognises in `head`, or `None` where it
/// recognises none.
pub uninterp spec fn inferred_mime_type(head: Seq<u8>) -> Option<Seq<char>>;

/// Calls `infer::get` and, on the type it finds, `mime_type`. Trusted: the
/// result is what `inferred_mime_type` names.
#[verifier::external_body]
fn infer_mime_type(head: &[u8]) -> (mime: Option<String>)
    ensures
        match mime {
            Some(text) => inferred_mime_type(head@) == Some(text@),
            None => inferred_mime_type(head@) is None,
        },
{
    match infer::get(head) {
        Some(kind) => Some(kind.mime_type().to_owned()),
        None => None,
    }
}

/// The part of a blob's content that its type is guessed from: the first
/// 1024 bytes, or all of it where it has fewer.
pub open spec fn mime_head(content: Seq<u8>) -> Seq<u8> {
    content.take(
        if content.len() < 1024 {
            content.len() as int
        } else {
            1024
        },
    )
}

/// Guesses the MIME type of content from its first 1024 bytes.
pub fn mime_type(content: &[u8]) -> (mime: Option<String>)
    ensures
        match mime {
            Some(text) => inferred_mime_type(mime_head(content@)) == Some(text@),
            None => inferred_mime_type(mime_head(content@)) is None,
        },
{
    let end = if content.len() < 1024 {
        content.len()
    } else {
        1024
    };
    let head = slice_subrange(content, 0, end);
    assert(head@ =~= mime_head(content@));
    infer_mime_type(head)
}

/// Calls `String::from_utf8_lossy` and takes ownership of what it returns.
/// Trusted: the result is the text named `utf8_lossy`.
#[verifier::external_body]
fn lossy_text(bytes: &[u8]) -> (text: String)
    ensures
        text@ == utf8_lossy(bytes@),
{
    String::from_utf8_lossy(bytes).into_owned()
}

/// Calls `bs58::decode(..).into_vec()` with the default alphabet and no
/// checksum. Trusted: the bytes, or the absence of them on a decoding error,
/// are what `base58_decoding` names.
#[verifier::external_body]
fn base58_decode(text: &str) -> (bytes: Option<Vec<u8>>)
    ensures
        match bytes {
            Some(v) => base58_decoding(text@) == Some(v@),
            None => base58_decoding(text@) is None,
        },
{
    match bs58::decode(text).into_vec() {
        Ok(bytes) => Some(bytes),
        Err(_) => None,
    }
}

/// Calls `bs58::encode(..).into_string()` with the default alphabet.
/// Trusted: the text is what `base58_encoding` names.
#[verifier::external_body]
fn base58_encode(bytes: &[u8]) -> (text: String)
    ensures
        text@ == base58_encoding(bytes@),
{
    bs58::encode(bytes).into_string()
}

/// Two digests with the same bytes are the same digest.
pub proof fn lemma_hash_view_injective(a: BlobHash, b: BlobHash)
    ensures
        a@ == b@ <==> a == b,
        a@.len() == 32,
{
    broadcast use vstd::array::group_array_axioms;

    if a@ == b@ {
        assert(a.0 =~= b.0);
    }
}

/// A digest's hex text is canonical, and reading it gives the digest back.
pub proof fn lemma_hex_of_hash_parses(hash: BlobHash)
    ensures
        is_digest_hex(hex_encode(hash@)),
        hex_decode(hex_encode(hash@)) == hash@,
{
    lemma_hash_view_injective(hash, hash);
    lemma_hex_encode_is_canonical(hash@);
    lemma_hex_decode_encode(hash@);
}

/// Canonical hex text of 64 digits is the hex text of the digest that it
/// parses to.
pub proof fn lemma_hex_round_trip(text: Seq<u8>, hash: BlobHash)
    requires
        is_digest_hex(text),
        hash@ == hex_decode(text),
    ensures
        hex_encode(hash@) == text,
        hex_chars(hash@) == Seq::new(text.len(), |i: int| text[i] as char),
{
    lemma_hex_encode_decode(text);
    assert(hex_chars(hash@) =~= Seq::new(text.len(), |i: int| text[i] as char));
}

impl PartialEq for BlobHash {
    fn eq(&self, other: &BlobHash) -> (equal: bool) {
        let mut i: usize = 0;
        while i < 32
            invariant
                i <= 32,
                forall|k: int| 0 <= k < i ==> self.0@[k] == other.0@[k],
            decreases 32 - i,
        {
            if self.0[i] != other.0[i] {
                return false;
            }
            i += 1;
        }
        assert(self.0@ =~= other.0@);
        true
    }
}

impl Eq for BlobHash {

}

impl PartialEqSpecImpl for BlobHash {
    open spec fn obeys_eq_spec() -> bool {
        true
    }

    open spec fn eq_spec(&self, other: &BlobHash) -> bool {
        self@ == other@
    }
}

/// What parsing `input` as base58 must give: the decoded bytes as a digest
/// when there are 32 of them, their number when there are not, and the input
/// itself when it is no base58 at all.
pub open spec fn base58_outcome(input: Seq<char>, outcome: Result<BlobHash, BlobHashError>) -> bool {
    match base58_decoding(input) {
        Some(bytes) => if bytes.len() == 32 {
            outcome matches Ok(hash) && hash@ == bytes
        } else {
            outcome matches Err(BlobHashError::InvalidLength(n)) && n == bytes.len()
        },
        None => outcome matches Err(BlobHashError::InvalidInput(text)) && text@ == input,
    }
}

/// The bytes of the digest that `text` stands for: those that its canonical
/// hex digits spell or, where it is no canonical hex, the 32 bytes that it
/// is the base58 text of. `None` where it is neither.
pub open spec fn digest_of_text(text: &str) -> Option<Seq<u8>> {
    if is_digest_hex(text.spec_bytes()) {
        Some(hex_decode(text.spec_bytes()))
    } else {
        match base58_decoding(text@) {
            Some(bytes) => if bytes.len() == 32 {
                Some(bytes)
            } else {
                None
            },
            None => None,
        }
    }
}

impl BlobHash {
    /// The all-zero digest: a sentinel that no stored blob has.
    pub fn zero() -> (hash: BlobHash)
        ensures
            hash@ == Seq::new(32, |i: int| 0u8),
    {
        let hash = BlobHash::from_bytes([0u8;32]);
        assert(hash@ =~= Seq::new(32, |i: int| 0u8));
        hash
    }

    /// The digest with exactly the bytes of `bytes`, which must be 32.
    pub fn from_vec(bytes: &Vec<u8>) -> (r: Result<BlobHash, BlobHashError>)
        ensures
            bytes@.len() == 32 ==> (r matches Ok(hash) && hash@ == bytes@),
            bytes@.len() != 32 ==> (r matches Err(BlobHashError::InvalidLength(n)) && n
                == bytes@.len()),
    {
        BlobHash::from_slice(bytes.as_slice())
    }

    /// The digest with exactly the bytes of `bytes`, which must be 32.
    pub fn from_slice(bytes: &[u8]) -> (r: Result<BlobHash, BlobHashError>)
        ensures
            bytes@.len() == 32 ==> (r matches Ok(hash) && hash@ == bytes@),
            bytes@.len() != 32 ==> (r matches Err(BlobHashError::InvalidLength(n)) && n
                == bytes@.len()),
    {
        if bytes.len() != 32 {
            return Err(BlobHashError::InvalidLength(bytes.len()));
        }
        let mut raw = [0u8;32];
        let mut i: usize = 0;
        while i < 32
            invariant
                i <= 32,
                bytes@.len() == 32,
                forall|k: int| 0 <= k < i ==> raw@[k] == bytes@[k],
            decreases 32 - i,
        {
            raw[i] = bytes[i];
            i += 1;
        }
        assert(raw@ =~= bytes@);
        Ok(BlobHash(raw))
    }

    /// The digest made of `bytes`.
    pub fn from_bytes(bytes: [u8; 32]) -> (hash: BlobHash)
        ensures
            hash.0 == bytes,
            hash@ == bytes@,
    {
        BlobHash(bytes)
    }

    /// Reads a digest from its canonical text: 64 lowercase hex digits. Any
    /// other input is handed back, as text, in the error.
    pub fn from_hex(input: &[u8]) -> (r: Result<BlobHash, BlobHashError>)
        ensures
            is_digest_hex(input@) ==> (r matches Ok(hash) && hash@ == hex_decode(input@)),
            !is_digest_hex(input@) ==> (r matches Err(BlobHashError::InvalidInput(text)) && text@
                == utf8_lossy(input@)),
    {
        if input.len() == 64 {
            if let Some(bytes) = decode_hex(input) {
                if let Ok(hash) = BlobHash::from_vec(&bytes) {
                    return Ok(hash);
                }
            }
        }
        Err(BlobHashError::InvalidInput(lossy_text(input)))
    }

    /// Reads a digest from base58 text.
    pub fn from_base58(input: &str) -> (r: Result<BlobHash, BlobHashError>)
        ensures
            base58_outcome(input@, r),
    {
        match base58_decode(input) {
            Some(bytes) => BlobHash::from_vec(&bytes),
            None => Err(BlobHashError::InvalidInput(input.to_owned())),
        }
    }

    /// Reads a digest from text: as canonical hex where the text is that,
    /// as base58 otherwise.
    pub fn parse(input: &str) -> (r: Result<BlobHash, BlobHashError>)
        ensures
            match digest_of_text(input) {
                Some(bytes) => r matches Ok(hash) && hash@ == bytes,
                None => r is Err && base58_outcome(input@, r),
            },
    {
        match BlobHash::from_hex(input.as_bytes()) {
            Ok(hash) => Ok(hash),
            Err(_) => BlobHash::from_base58(input),
        }
    }

    /// The digest's canonical text: 64 lowercase hex digits.
    pub fn to_hex(&self) -> (text: String)
        ensures
            text@ == hex_chars(self@),
            text@.len() == 64,
    {
        encode_hex(self.0.as_slice())
    }

    /// The digest's base58 text.
    pub fn to_base58(&self) -> (text: String)
        ensures
            text@ == base58_encoding(self@),
    {
        base58_encode(self.0.as_slice())
    }
}

impl From<[u8; 32]> for BlobHash {
    fn from(bytes: [u8; 32]) -> (hash: BlobHash) {
        BlobHash(bytes)
    }
}

impl FromSpecImpl<[u8; 32]> for BlobHash {
    open spec fn obeys_from_spec() -> bool {
        true
    }

    open spec fn from_spec(bytes: [u8; 32]) -> BlobHash {
        BlobHash(bytes)
    }
}

impl From<BlobHash> for [u8; 32] {
    fn from(blob_hash: BlobHash) -> (bytes: [u8; 32]) {
        blob_hash.0
    }
}

impl FromSpecImpl<BlobHash> for [u8; 32] {
    open spec fn obeys_from_spec() -> bool {
        true
    }

    open spec fn from_spec(blob_hash: BlobHash) -> [u8; 32] {
        blob_hash.0
    }
}

impl std::str::FromStr for BlobHash {
    type Err = BlobHashError;

    /// Reads a digest from text, as `BlobHash::parse` does.
    fn from_str(input: &str) -> (r: Result<BlobHash, BlobHashError>)
        ensures
            match digest_of_text(input) {
                Some(bytes) => r matches Ok(hash) && hash@ == bytes,
                None => r is Err && base58_outcome(input@, r),
            },
    {
        BlobHash::parse(input)
    }
}

/// What a store hands out for one blob: where it sits, what it hashes to, how
/// long it is and, where the store read it, its content.
#[derive(Debug)]
pub struct Blob {
    pub id: BlobID,
    pub hash: BlobHash,
    pub size: u64,
    pub data: Option<Vec<u8>>,
}

impl Blob {
    /// The handle's content as a byte sequence, where it carries one.
    pub open spec fn content(&self) -> Option<Seq<u8>> {
        match self.data {
            Some(bytes) => Some(bytes@),
            None => None,
        }
    }

    /// Guesses the MIME type of the blob from the content that the handle
    /// carries; a handle without content gives `None`.
    pub fn mime_type(&self) -> (mime: Option<String>)
        ensures
            match self.content() {
                None => mime is None,
                Some(content) => match mime {
                    Some(text) => inferred_mime_type(mime_head(content)) == Some(text@),
                    None => inferred_mime_type(mime_head(content)) is None,
                },
            },
    {
        match &self.data {
            Some(bytes) => mime_type(bytes.as_slice()),
            None => None,
        }
    }

    /// A second handle with the same fields.
    pub fn duplicate(&self) -> (copy: Blob)
        ensures
            copy.id == self.id,
            copy.hash == self.hash,
            copy.size == self.size,
            copy.content() == self.content(),
    {
        let data = match &self.data {
            Some(bytes) => Some(bytes.clone()),
            None => None,
        };
        Blob { id: self.id, hash: self.hash, size: self.size, data }
    }
}

impl Clone for Blob {
    fn clone(&self) -> (copy: Blob) {
        self.duplicate()
    }
}

} // verus!
