//! The inputs that a command reads.

use crate::error::IoError;
use vstd::prelude::*;

verus! {

/// The names of the inputs to read: the paths given or, where none is
/// given, the standard input.
pub fn list_inputs(input_paths: &Vec<String>) -> (r: Result<Vec<String>, IoError>)
    ensures
        r matches Ok(inputs) && inputs.deep_view() == (if input_paths@.len() == 0 {
            seq!["/dev/stdin"@]
        } else {
            input_paths.deep_view()
        }),
{
    let mut inputs: Vec<String> = Vec::new();
    if input_paths.len() == 0 {
        inputs.push("/dev/stdin".to_owned());
        assert(inputs.deep_view() =~= seq!["/dev/stdin"@]);
        return Ok(inputs);
    }
    let mut i: usize = 0;
    while i < input_paths.len()
        invariant
            i <= input_paths@.len(),
            inputs@.len() == i,
            forall|k: int| 0 <= k < i ==> (#[trigger] inputs@[k])@ == input_paths@[k]@,
        decreases input_paths@.len() - i,
    {
        inputs.push(input_paths[i].clone());
        i += 1;
    }
    assert(inputs.deep_view() =~= input_paths.deep_view());
    Ok(inputs)
}

} // verus!
