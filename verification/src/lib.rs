//! A sorting visualizer's engine: sorting algorithms that report each step
//! they take, the history this produces, and the cursor that walks it.

use rand::seq::SliceRandom;
use vstd::prelude::*;
use crate::sequence::permutes;

pub mod blocks;
pub mod layout;
pub mod menu;
pub mod sequence;
pub mod sorting;
pub mod status;
pub mod text;

verus! {

/// The numbers from one to `n` in ascending order, each as an `i32`: a
/// number beyond the largest `i32` is cut down to its lowest 32 bits.
pub open spec fn counting(n: nat) -> Seq<i32> {
    Seq::new(n, |k: int| (k + 1) as i32)
}

/// Returns the numbers from one to `n` in ascending order, each as an `i32`.
pub fn init_vec(n: usize) -> (v: Vec<i32>)
    ensures
        v@ == counting(n as nat),
{
    let mut v: Vec<i32> = Vec::new();
    let mut i: usize = 0;
    while i < n
        invariant
            i <= n,
            v@ == counting(i as nat),
        decreases n - i,
    {
        i += 1;
        v.push(#[verifier::truncate] (i as i32));
        assert(v@ =~= counting(i as nat));
    }
    v
}

/// Rearranges `v` at random.
///
/// This is `rand::seq::SliceRandom::shuffle` on the elements of `v`, driven
/// by the generator of `rand::thread_rng`. It exchanges elements in place,
/// so `v` holds the same elements afterwards, each as often as before; in
/// which order is left open. The generator refuses to start where the
/// system has no source of randomness.
#[verifier::external_body]
pub fn shuffle(v: &mut Vec<i32>)
    ensures
        permutes(final(v)@, old(v)@),
        final(v)@.len() == old(v)@.len(),
{
    let mut rng = rand::thread_rng();
    v.shuffle(&mut rng);
}

} // verus!
