use vstd::prelude::*;

verus! {

/// The state of a linear congruential generator, owned by its caller and
/// seeded explicitly, so that a seed always gives the same values.
#[derive(Debug, Clone, Copy, PartialEq, Eq, Structural)]
pub struct RandomState {
    pub next: usize,
}

/// Things that can be drawn from a generator.
pub trait NewRandom: Sized {
    fn new_random(rng: &mut RandomState) -> Self;
}

/// Integer types the generator produces, each with its own constants.
pub trait RandInt: Sized {
    /// The state after one step from `state`.
    spec fn next_state(state: usize) -> usize;

    /// The value drawn by one step from `state`.
    spec fn drawn(state: usize) -> Self;

    /// One step of the generator.
    fn step(state: usize) -> (r: (usize, Self))
        ensures
            r.0 == Self::next_state(state),
            r.1 == Self::drawn(state),
    ;
}

impl RandInt for u32 {
    open spec fn next_state(state: usize) -> usize {
        (state as u32).wrapping_mul(214_013).wrapping_add(2_531_011) as usize
    }

    open spec fn drawn(state: usize) -> u32 {
        ((state as u32).wrapping_mul(214_013).wrapping_add(2_531_011) >> 16u32) & 0x7fffu32
    }

    fn step(state: usize) -> (r: (usize, u32)) {
        let cur = (state as u32).wrapping_mul(214_013).wrapping_add(2_531_011);
        (cur as usize, (cur >> 16u32) & 0x7fff)
    }
}

impl RandInt for i32 {
    open spec fn next_state(state: usize) -> usize {
        (state as i32).wrapping_mul(214_013).wrapping_add(2_531_011) as usize
    }

    open spec fn drawn(state: usize) -> i32 {
        ((state as i32).wrapping_mul(214_013).wrapping_add(2_531_011) >> 16i32) & 0x7fffi32
    }

    fn step(state: usize) -> (r: (usize, i32)) {
        let cur = (state as i32).wrapping_mul(214_013).wrapping_add(2_531_011);
        (cur as usize, (cur >> 16i32) & 0x7fff)
    }
}

impl RandInt for u64 {
    open spec fn next_state(state: usize) -> usize {
        (state as u64).wrapping_mul(6_364_136_223_846_793_005).wrapping_add(
            1_442_695_040_888_963_407,
        ) as usize
    }

    open spec fn drawn(state: usize) -> u64 {
        ((state as u64).wrapping_mul(6_364_136_223_846_793_005).wrapping_add(
            1_442_695_040_888_963_407,
        ) >> 32u64) & 0x7fff_ffffu64
    }

    fn step(state: usize) -> (r: (usize, u64)) {
        let cur = (state as u64).wrapping_mul(6_364_136_223_846_793_005).wrapping_add(
            1_442_695_040_888_963_407,
        );
        (cur as usize, (cur >> 32u64) & 0x7fff_ffff)
    }
}

impl RandInt for i64 {
    open spec fn next_state(state: usize) -> usize {
        (state as i64).wrapping_mul(6_364_136_223_846_793_005).wrapping_add(
            1_442_695_040_888_963_407,
        ) as usize
    }

    open spec fn drawn(state: usize) -> i64 {
        ((state as i64).wrapping_mul(6_364_136_223_846_793_005).wrapping_add(
            1_442_695_040_888_963_407,
        ) >> 32i64) & 0x7fff_ffffi64
    }

    fn step(state: usize) -> (r: (usize, i64)) {
        let cur = (state as i64).wrapping_mul(6_364_136_223_846_793_005).wrapping_add(
            1_442_695_040_888_963_407,
        );
        (cur as usize, (cur >> 32i64) & 0x7fff_ffff)
    }
}

impl RandomState {
    /// A generator started from `seed`.
    pub fn new(seed: usize) -> (r: RandomState)
        ensures
            r.next == seed,
    {
        RandomState { next: seed }
    }
}

/// Draws the next value of type `T` and advances the generator.
pub fn rand<T: RandInt>(rng: &mut RandomState) -> (r: T)
    ensures
        final(rng).next == T::next_state(old(rng).next),
        r == T::drawn(old(rng).next),
{
    let (next, value) = T::step(rng.next);
    rng.next = next;
    value
}

} // verus!
