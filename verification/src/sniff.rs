//! The binary sniffer: content is taken for binary exactly when a NUL
//! byte appears in a bounded leading sample, the same heuristic
//! source-control tools use to tell text from binary.

use vstd::prelude::*;

verus! {

/// How many leading bytes of a file the sniffer may consider.
pub const SAMPLE_LIMIT: usize = 8000;

/// Whether a NUL byte occurs among the first [`SAMPLE_LIMIT`] bytes of
/// the sample.
pub open spec fn binary_spec(data: Seq<u8>) -> bool {
    exists|i: int| 0 <= i < data.len() && i < SAMPLE_LIMIT && data[i] == 0u8
}

/// Classifies a content sample as binary or text. False positives are
/// impossible within the sampled window; a long NUL-free text prelude can
/// still hide binary content further on, which is accepted.
pub fn is_binary_sample(data: &Vec<u8>) -> (r: bool)
    ensures
        r == binary_spec(data@),
{
    let n = if data.len() < SAMPLE_LIMIT {
        data.len()
    } else {
        SAMPLE_LIMIT
    };
    for i in 0..n
        invariant
            n <= data@.len(),
            n <= SAMPLE_LIMIT,
            n == if data@.len() < SAMPLE_LIMIT { data@.len() as int } else { SAMPLE_LIMIT as int },
            forall|k: int| 0 <= k < i ==> data@[k] != 0u8,
    {
        if data[i] == 0u8 {
            return true;
        }
    }
    false
}

} // verus!
