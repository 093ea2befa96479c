//! Filters that compress content.

use crate::error::{BlobStoreError, IoError, IoErrorKind};
use crate::filter::{appended, copy_bytes, Filter};
use std::io::{Read, Write};
use vstd::prelude::*;

verus! {

/// The content of the GZIP stream `input` as `libflate` decodes it, or
/// `None` where it reports an error.
pub uninterp spec fn gzip_decoding(input: Seq<u8>) -> Option<Seq<u8>>;

/// The LZ4 frame that `lz4_flex` writes for `input` with its default
/// settings.
pub uninterp spec fn lz4_frame_encoding(input: Seq<u8>) -> Seq<u8>;

/// The content of the LZ4 frame `input` as `lz4_flex` decodes it, or `None`
/// where it reports an error.
pub uninterp spec fn lz4_frame_decoding(input: Seq<u8>) -> Option<Seq<u8>>;

/// Writes `input` through a `libflate::gzip::Encoder` with a header from
/// `HeaderBuilder::new`. Nothing is claimed of the result: the header holds
/// the time at which it was made.
#[verifier::external_body]
fn gzip_encode(input: &[u8]) -> (encoded: Option<Vec<u8>>) {
    let header = libflate::gzip::HeaderBuilder::new().finish();
    let options = libflate::gzip::EncodeOptions::new().header(header);
    let mut encoder = libflate::gzip::Encoder::with_options(Vec::new(), options).ok()?;
    encoder.write_all(input).ok()?;
    encoder.finish().into_result().ok()
}

/// Reads `input` through a `libflate::gzip::Decoder` to its end. Trusted:
/// the content, or its absence on an error, is what `gzip_decoding` names.
#[verifier::external_body]
fn gzip_decode(input: &[u8]) -> (decoded: Option<Vec<u8>>)
    ensures
        match decoded {
            Some(bytes) => gzip_decoding(input@) == Some(bytes@),
            None => gzip_decoding(input@) is None,
        },
{
    let mut decoder = libflate::gzip::Decoder::new(input).ok()?;
    let mut decoded = Vec::new();
    decoder.read_to_end(&mut decoded).ok()?;
    Some(decoded)
}

/// Writes `input` through an `lz4_flex::frame::FrameEncoder`. Trusted: the
/// frame is what `lz4_frame_encoding` names; `None` stands for a failure to
/// write into memory, of which nothing is claimed.
#[verifier::external_body]
fn lz4_encode(input: &[u8]) -> (encoded: Option<Vec<u8>>)
    ensures
        encoded matches Some(bytes) ==> bytes@ == lz4_frame_encoding(input@),
{
    let mut encoder = lz4_flex::frame::FrameEncoder::new(Vec::new());
    encoder.write_all(input).ok()?;
    encoder.finish().ok()
}

/// Reads `input` through an `lz4_flex::frame::FrameDecoder` to its end.
/// Trusted: the content, or its absence on an error, is what
/// `lz4_frame_decoding` names.
#[verifier::external_body]
fn lz4_decode(input: &[u8]) -> (decoded: Option<Vec<u8>>)
    ensures
        match decoded {
            Some(bytes) => lz4_frame_decoding(input@) == Some(bytes@),
            None => lz4_frame_decoding(input@) is None,
        },
{
    let mut decoder = lz4_flex::frame::FrameDecoder::new(input);
    let mut decoded = Vec::new();
    decoder.read_to_end(&mut decoded).ok()?;
    Some(decoded)
}

/// Adds what a codec produced to `output`, or reports that it produced
/// nothing, as invalid data.
pub fn deliver(produced: Option<Vec<u8>>, output: &mut Vec<u8>) -> (r: Result<u64, BlobStoreError>)
    ensures
        match produced {
            Some(bytes) => r == Ok::<u64, BlobStoreError>(bytes@.len() as u64) && final(output)@
                == old(output)@ + bytes@,
            None => (r matches Err(BlobStoreError::IO(failure)) && failure.kind
                == IoErrorKind::InvalidData) && final(output)@ == old(output)@,
        },
        r matches Ok(count) ==> appended(old(output)@, final(output)@, count),
{
    match produced {
        Some(bytes) => {
            let count = copy_bytes(bytes.as_slice(), output);
            assert(output@.subrange(0, old(output)@.len() as int) =~= old(output)@);
            Ok(count)
        },
        None => Err(
            BlobStoreError::IO(IoError::new(IoErrorKind::InvalidData, "content cannot be coded")),
        ),
    }
}

/// The filter that stores content as a GZIP stream.
pub struct GzipCompressor {}

impl Filter for GzipCompressor {
    fn encode(&self, input: &[u8], output: &mut Vec<u8>) -> (r: Result<u64, BlobStoreError>) {
        deliver(gzip_encode(input), output)
    }

    fn decode(&self, input: &[u8], output: &mut Vec<u8>) -> (r: Result<u64, BlobStoreError>)
        ensures
            match gzip_decoding(input@) {
                Some(bytes) => r == Ok::<u64, BlobStoreError>(bytes.len() as u64) && final(output)@
                    == old(output)@ + bytes,
                None => r is Err,
            },
    {
        deliver(gzip_decode(input), output)
    }
}

/// The filter that stores content as an LZ4 frame.
pub struct Lz4Compressor {}

impl Filter for Lz4Compressor {
    fn encode(&self, input: &[u8], output: &mut Vec<u8>) -> (r: Result<u64, BlobStoreError>)
        ensures
            r is Ok ==> final(output)@ == old(output)@ + lz4_frame_encoding(input@),
    {
        deliver(lz4_encode(input), output)
    }

    fn decode(&self, input: &[u8], output: &mut Vec<u8>) -> (r: Result<u64, BlobStoreError>)
        ensures
            match lz4_frame_decoding(input@) {
                Some(bytes) => r == Ok::<u64, BlobStoreError>(bytes.len() as u64) && final(output)@
                    == old(output)@ + bytes,
                None => r is Err,
            },
    {
        deliver(lz4_decode(input), output)
    }
}

} // verus!
