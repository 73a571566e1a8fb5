//! The coverage artifact format: a packed array of records of two 64-bit
//! little-endian integers, the source and destination basic-block
//! addresses of one observed branch. The record count is the byte length
//! divided by sixteen; trailing bytes are ignored.

use vstd::bytes::{spec_u64_from_le_bytes, u64_from_le_bytes};
use vstd::prelude::*;
use vstd::slice::slice_subrange;

verus! {

/// One observed branch: source and destination basic-block addresses.
#[derive(Hash, Eq, PartialEq, Clone, Copy, Structural, Debug)]
pub struct Branch {
    pub from: u64,
    pub to: u64,
}

/// The branch encoded at record `i` of the artifact bytes.
pub open spec fn spec_branch_at(bytes: Seq<u8>, i: int) -> Branch {
    Branch {
        from: spec_u64_from_le_bytes(bytes.subrange(16 * i, 16 * i + 8)),
        to: spec_u64_from_le_bytes(bytes.subrange(16 * i + 8, 16 * i + 16)),
    }
}

/// Decodes a coverage artifact: one record per full sixteen bytes,
/// trailing bytes ignored.
pub fn branches_from_bytes(bytes: &[u8]) -> (r: Vec<Branch>)
    ensures
        r@.len() == bytes@.len() / 16,
        forall|i: int| 0 <= i < r@.len() ==> #[trigger] r@[i] == spec_branch_at(bytes@, i),
{
    let total = bytes.len();
    let count = total / 16;
    let mut r: Vec<Branch> = Vec::new();
    let mut i: usize = 0;
    while i < count
        invariant
            0 <= i <= count,
            count == bytes@.len() / 16,
            total == bytes@.len(),
            r@.len() == i,
            forall|k: int| 0 <= k < i ==> #[trigger] r@[k] == spec_branch_at(bytes@, k),
        decreases count - i,
    {
        proof {
            assert(16 * (i as int) + 16 <= bytes@.len()) by (nonlinear_arith)
                requires
                    0 <= i < count,
                    count == bytes@.len() / 16,
            {}
        }
        let from_bytes = slice_subrange(bytes, 16 * i, 16 * i + 8);
        let to_bytes = slice_subrange(bytes, 16 * i + 8, 16 * i + 16);
        let branch = Branch { from: u64_from_le_bytes(from_bytes), to: u64_from_le_bytes(to_bytes) };
        r.push(branch);
        i = i + 1;
    }
    r
}

} // verus!
