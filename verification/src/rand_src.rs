//! The seedable pseudo-random source.
//!
//! A [`RandomSource`] pairs the generator with the seed it was built from
//! and the number of words drawn so far. The generator is a deterministic
//! function of its seed, so the draw at position `idx` after seeding with
//! `seed` is named by the uninterpreted [`rng_stream`]: two sources seeded
//! with the same word yield the same 64-bit stream, element by element,
//! wherever they run. Nothing is claimed of the values beyond that.

use vstd::prelude::*;

verus! {

#[verifier::external_type_specification]
#[verifier::external_body]
pub struct ExStdRng(rand::rngs::StdRng);

/// The 64-bit word at position `idx` of the stream a generator seeded with
/// `seed` produces: a function of `seed` and `idx` alone.
pub uninterp spec fn rng_stream(seed: u64, idx: u64) -> u64;

/// The generator, the seed it was built from, and how many words were
/// drawn. Construction pairs the three; the fields stay in step because
/// only [`RandomSource::from_seed`] and [`RandomSource::next_bits`] touch
/// the generator.
pub struct RandomSource {
    rng: rand::rngs::StdRng,
    seed: u64,
    drawn: u64,
}

impl RandomSource {
    /// The seed this source was built from.
    pub closed spec fn seed_view(&self) -> u64 {
        self.seed
    }

    /// How many words have been drawn.
    pub closed spec fn drawn_view(&self) -> u64 {
        self.drawn
    }

    /// The seed this source was built from.
    pub fn current_seed(&self) -> (s: u64)
        ensures
            s == self.seed_view(),
    {
        self.seed
    }

    /// Relies on `rand::SeedableRng::seed_from_u64`: a generator seeded
    /// deterministically from the word.
    #[verifier::external_body]
    pub fn from_seed(seed: u64) -> (r: RandomSource)
        ensures
            r.seed_view() == seed,
            r.drawn_view() == 0,
    {
        RandomSource {
            rng: <rand::rngs::StdRng as rand::SeedableRng>::seed_from_u64(seed),
            seed,
            drawn: 0,
        }
    }

    /// Relies on `rand::RngCore::next_u64` for `StdRng`: the generator is
    /// a deterministic function of its seed, so while the draw counter has
    /// kept step (it saturates at an unreachable count), the word drawn
    /// here is `rng_stream(seed, drawn)`. The counter fields are left to
    /// the verified caller.
    #[verifier::external_body]
    fn draw_raw(&mut self) -> (x: u64)
        ensures
            final(self).seed_view() == old(self).seed_view(),
            final(self).drawn_view() == old(self).drawn_view(),
            old(self).drawn_view() < u64::MAX ==> x == rng_stream(
                old(self).seed_view(),
                old(self).drawn_view(),
            ),
    {
        rand::RngCore::next_u64(&mut self.rng)
    }

    /// The next 64 random bits: the word `rng_stream(seed, drawn)` of the
    /// seeded stream. The draw counter saturates; past that unreachable
    /// point the word drawn is no longer named.
    pub fn next_bits(&mut self) -> (x: u64)
        ensures
            final(self).seed_view() == old(self).seed_view(),
            old(self).drawn_view() < u64::MAX ==> final(self).drawn_view() == old(
                self,
            ).drawn_view() + 1 && x == rng_stream(
                old(self).seed_view(),
                old(self).drawn_view(),
            ),
    {
        let x = self.draw_raw();
        if self.drawn < u64::MAX {
            self.drawn = self.drawn + 1;
        }
        x
    }
}

/// Relies on `rand::thread_rng`: a fresh seed drawn from the system
/// source. Nothing is claimed of the value.
#[verifier::external_body]
pub fn entropy_seed() -> (x: u64) {
    rand::Rng::gen::<u64>(&mut rand::thread_rng())
}

} // verus!
