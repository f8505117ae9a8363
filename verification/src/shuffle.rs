use rand::seq::SliceRandom;
use rand::thread_rng;
use vstd::prelude::*;
use crate::block::Shape;

verus! {

/// Reorders `shapes` at random, by `rand::seq::SliceRandom::shuffle` driven by
/// the generator that `rand::thread_rng` hands out.
///
/// Not proved: that the call only exchanges elements, so that the vector holds
/// the same shapes as before, each as often as before. Nothing is claimed of
/// their order. The call aborts if the operating system cannot seed the
/// generator.
#[verifier::external_body]
pub(crate) fn shuffle(shapes: &mut Vec<Shape>)
    ensures
        final(shapes)@.to_multiset() == old(shapes)@.to_multiset(),
{
    shapes.shuffle(&mut thread_rng());
}

} // verus!
