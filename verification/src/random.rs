//! Random permutations from a seeded generator.

use rand::SeedableRng;
use vstd::prelude::*;

verus! {

/// The standard generator of `rand`, as an opaque value.
#[verifier::external_type_specification]
#[verifier::external_body]
pub struct ExStdRng(rand::rngs::StdRng);

/// Whether `order` arranges the indices `0..length`: it has `length`
/// entries, each below `length`, and no two of them equal.
pub open spec fn is_permutation(order: Seq<usize>, length: int) -> bool {
    &&& order.len() == length
    &&& forall|k: int| 0 <= k < order.len() ==> #[trigger] order[k] < length
    &&& forall|k: int, l: int| 0 <= k < l < order.len() ==> order[k] != order[l]
}

/// Calls `StdRng::seed_from_u64` of `rand`. Nothing is claimed of the
/// generator that it returns.
#[verifier::external_body]
pub(crate) fn seeded_generator(seed: u64) -> (generator: rand::rngs::StdRng) {
    rand::rngs::StdRng::seed_from_u64(seed)
}

/// Calls `rand::seq::index::sample` for `length` of the indices
/// `0..length`, which returns that many distinct indices below `length` in
/// random order. Claimed is that the result arranges `0..length`; which
/// arrangement it is, is left open. Beyond 32 bits `sample` turns to
/// rejection sampling, which asserts that fewer indices are asked for than
/// there are: such lengths are left out.
#[verifier::external_body]
pub(crate) fn draw_permutation(generator: &mut rand::rngs::StdRng, length: usize) -> (order: Vec<
    usize,
>)
    requires
        length <= u32::MAX,
    ensures
        is_permutation(order@, length as int),
{
    rand::seq::index::sample(generator, length, length).into_vec()
}

} // verus!
