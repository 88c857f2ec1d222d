//! Drawing the slippage fractions that executions use: a pool that depends
//! on the bounds and on a seed, and on nothing else.
use vstd::prelude::*;
use rand::{Rng, SeedableRng};

verus! {

/// How many fractions are drawn in advance.
pub const POOL_SIZE: usize = 10000;

/// Every value lies between the bounds.
pub open spec fn within(pool: Seq<i64>, lower: i64, upper: i64) -> bool {
    forall|i: int| 0 <= i < pool.len() ==> lower <= #[trigger] pool[i] <= upper
}

/// The value that a generator made from a seed draws first from an
/// inclusive range that is not empty: what `StdRng::seed_from_u64` followed
/// by `Rng::random_range` gives, in the one version of `rand` that the crate
/// is built with. Another version may draw otherwise.
pub uninterp spec fn first_draw(seed: u64, low: i64, high: i64) -> i64;

/// `StdRng::seed_from_u64`, and `Rng::random_range` on an inclusive range of
/// `i64`, which must not be empty, as the first draw of that generator. The
/// generator's state is the seed and nothing else, so the contract names the
/// result, and says that it lies in the range.
#[verifier::external_body]
fn draw_first(seed: u64, low: i64, high: i64) -> (r: i64)
    requires
        low <= high,
    ensures
        r == first_draw(seed, low, high),
        low <= r <= high,
{
    rand::rngs::StdRng::seed_from_u64(seed).random_range(low..=high)
}

/// The seed of the draw at place `k` of a pool: the pool's seed and `k`,
/// wrapping around.
pub open spec fn seed_at(seed: u64, k: int) -> u64 {
    ((seed + k) % 0x1_0000_0000_0000_0000) as u64
}

/// The pool of `count` fractions that a seed and bounds give: the fraction
/// at each place is the first draw of the generator made from that place's
/// seed.
pub open spec fn pool_of(seed: u64, low: i64, high: i64, count: nat) -> Seq<i64> {
    Seq::new(count, |k: int| first_draw(seed_at(seed, k), low, high))
}

/// Draws the pool that a seed and bounds give.
pub fn draw_pool(seed: u64, low: i64, high: i64, count: usize) -> (pool: Vec<i64>)
    requires
        low <= high,
    ensures
        pool@ == pool_of(seed, low, high, count as nat),
        within(pool@, low, high),
{
    let mut pool: Vec<i64> = Vec::new();
    while pool.len() < count
        invariant
            low <= high,
            pool@.len() <= count,
            within(pool@, low, high),
            forall|k: int|
                0 <= k < pool@.len() ==> #[trigger] pool@[k] == first_draw(
                    seed_at(seed, k),
                    low,
                    high,
                ),
        decreases count - pool@.len(),
    {
        let place: u128 = pool.len() as u128;
        let moved: u128 = (seed as u128 + place) % 0x1_0000_0000_0000_0000u128;
        let fraction: i64 = draw_first(moved as u64, low, high);
        pool.push(fraction);
    }
    proof {
        assert(pool@ =~= pool_of(seed, low, high, count as nat));
    }
    pool
}

} // verus!
