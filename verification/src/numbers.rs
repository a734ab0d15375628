//! The demonstration number sequence the host application writes out.

use vstd::prelude::*;

verus! {

/// The numbers to emit, in order: the contents of a five-element vector
/// followed by the contents of an equal five-element array.
pub fn print() -> (r: Vec<u8>)
    ensures
        r@ == seq![1u8, 2u8, 3u8, 4u8, 5u8, 1u8, 2u8, 3u8, 4u8, 5u8],
{
    let r: Vec<u8> = vec![1, 2, 3, 4, 5, 1, 2, 3, 4, 5];
    proof {
        assert(r@ =~= seq![1u8, 2u8, 3u8, 4u8, 5u8, 1u8, 2u8, 3u8, 4u8, 5u8]);
    }
    r
}

} // verus!
