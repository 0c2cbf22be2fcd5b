//! The fanout chunk: 256 cumulative object counts, one per possible first
//! byte of an object id.

use vstd::prelude::*;
use crate::bytes::{be_u32_at, read_be_u32};

verus! {

/// Decodes the fanout chunk: exactly 256 big-endian 32-bit counts; any
/// other chunk size is rejected.
pub fn from_slice(chunk: &[u8]) -> (r: Option<Vec<u32>>)
    ensures
        match r {
            Some(fan) => {
                &&& chunk@.len() == 1024
                &&& fan@.len() == 256
                &&& forall|i: int| 0 <= i < 256 ==> fan@[i] == be_u32_at(chunk@, 4 * i)
            },
            None => chunk@.len() != 1024,
        },
{
    if chunk.len() != 1024 {
        return None;
    }
    let mut fan: Vec<u32> = Vec::new();
    let mut i: usize = 0;
    while i < 256
        invariant
            i <= 256,
            chunk@.len() == 1024,
            fan@.len() == i,
            forall|j: int| 0 <= j < i ==> fan@[j] == be_u32_at(chunk@, 4 * j),
        decreases 256 - i,
    {
        let v = read_be_u32(chunk, 4 * i);
        fan.push(v);
        i += 1;
    }
    Some(fan)
}

} // verus!
