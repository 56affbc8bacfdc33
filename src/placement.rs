//! Random initial placement of nodes on the grid of a bounding box.
use rand::rngs::StdRng;
use rand::Rng;
use rand::SeedableRng;
use vstd::prelude::*;

verus! {

#[verifier::external_type_specification]
#[verifier::external_body]
pub struct ExStdRng(StdRng);

/// Relies on rand's `SeedableRng::seed_from_u64` for `StdRng`: a generator
/// whose sequence of draws is fixed by the seed.
#[verifier::external_body]
fn seeded_rng(seed: u64) -> (r: StdRng) {
    StdRng::seed_from_u64(seed)
}

/// Relies on rand's `Rng::gen_range` on the half-open range `0..bound`: it
/// returns a value `v` with `0 <= v < bound`, and panics only on an empty range.
#[verifier::external_body]
fn draw_below(rng: &mut StdRng, bound: u32) -> (r: u32)
    requires
        bound > 0,
    ensures
        r < bound,
{
    rng.gen_range(0..bound)
}

/// Draws `count` grid points of the box `[0, width) x [0, height)` from a
/// generator seeded with `seed`: for each point first `x`, then `y`.
pub fn draw_placements(count: usize, width: u32, height: u32, seed: u64) -> (r: Vec<(u32, u32)>)
    requires
        width > 0,
        height > 0,
    ensures
        r@.len() == count,
        forall|i: int| 0 <= i < r@.len() ==> (#[trigger] r@[i]).0 < width && r@[i].1 < height,
{
    let mut rng = seeded_rng(seed);
    let mut points: Vec<(u32, u32)> = Vec::new();
    let mut k: usize = 0;
    while k < count
        invariant
            k <= count,
            width > 0,
            height > 0,
            points@.len() == k,
            forall|i: int| 0 <= i < points@.len() ==> (#[trigger] points@[i]).0 < width && points@[i].1 < height,
        decreases count - k,
    {
        let x = draw_below(&mut rng, width);
        let y = draw_below(&mut rng, height);
        points.push((x, y));
        k = k + 1;
    }
    points
}

} // verus!
