//! Filters: transforms that a store may apply to content on its way to and
//! from storage.

use crate::error::BlobStoreError;
use vstd::prelude::*;

verus! {

/// What a filter may do to its output buffer: leave what was there and add
/// `count` bytes behind it.
pub open spec fn appended(before: Seq<u8>, after: Seq<u8>, count: u64) -> bool {
    &&& after.len() == before.len() + count
    &&& after.subrange(0, before.len() as int) == before
}

/// A transform of blob content with its inverse. Each direction reads all of
/// `input`, adds what it produces to the end of `output` and returns the
/// number of bytes added.
pub trait Filter {
    fn encode(&self, input: &[u8], output: &mut Vec<u8>) -> (r: Result<u64, BlobStoreError>)
        ensures
            r matches Ok(count) ==> appended(old(output)@, final(output)@, count),
            r is Err ==> final(output)@ == old(output)@,
    ;

    fn decode(&self, input: &[u8], output: &mut Vec<u8>) -> (r: Result<u64, BlobStoreError>)
        ensures
            r matches Ok(count) ==> appended(old(output)@, final(output)@, count),
            r is Err ==> final(output)@ == old(output)@,
    ;
}

/// Adds all of `input` to the end of `output`.
pub fn copy_bytes(input: &[u8], output: &mut Vec<u8>) -> (count: u64)
    ensures
        final(output)@ == old(output)@ + input@,
        count == input@.len(),
{
    output.extend_from_slice(input);
    assert(output@ =~= old(output)@ + input@);
    input.len() as u64
}

/// The filter that changes nothing.
pub struct NoopFilter {}

impl Filter for NoopFilter {
    fn encode(&self, input: &[u8], output: &mut Vec<u8>) -> (r: Result<u64, BlobStoreError>)
        ensures
            r matches Ok(count) && count == input@.len(),
            final(output)@ == old(output)@ + input@,
    {
        let count = copy_bytes(input, output);
        assert(output@.subrange(0, old(output)@.len() as int) =~= old(output)@);
        Ok(count)
    }

    fn decode(&self, input: &[u8], output: &mut Vec<u8>) -> (r: Result<u64, BlobStoreError>)
        ensures
            r matches Ok(count) && count == input@.len(),
            final(output)@ == old(output)@ + input@,
    {
        let count = copy_bytes(input, output);
        assert(output@.subrange(0, old(output)@.len() as int) =~= old(output)@);
        Ok(count)
    }
}

} // verus!
