//! The uniform-random source the generation pipeline draws from.
//!
//! The pipeline needs two kinds of draws: an integer from a half-open range
//! (used to pick room corners and branch directions) and a full-range
//! integer used purely as a sortable priority key. A source either forwards
//! to rand's thread-local generator or replays a fixed sequence of draws;
//! with a fixed sequence every draw, and so the whole generation run, is a
//! function of the sequence alone.

use vstd::prelude::*;

verus! {

/// Declares rand's thread-local generator type, so that a source can hold
/// one; the value is opaque here.
#[verifier::external_type_specification]
#[verifier::external_body]
pub struct ExThreadRng(rand::rngs::ThreadRng);

/// A fixed sequence of draws and a cursor into it. Once the cursor passes
/// the end, every further draw yields 0.
pub struct FixedDraws {
    pub draws: Vec<u64>,
    pub next: usize,
}

/// The value a fixed source yields next.
pub open spec fn spec_next_u64(d: FixedDraws) -> u64 {
    if d.next < d.draws.len() {
        d.draws[d.next as int]
    } else {
        0
    }
}

/// The state of a fixed source after one draw.
pub open spec fn spec_advance(d: FixedDraws) -> FixedDraws {
    if d.next < d.draws.len() {
        FixedDraws { draws: d.draws, next: (d.next + 1) as usize }
    } else {
        d
    }
}

/// The range draw a fixed source yields: the next value, folded into
/// `lo..hi` by remainder.
pub open spec fn spec_in_range(d: FixedDraws, lo: int, hi: int) -> int {
    lo + (spec_next_u64(d) as int) % (hi - lo)
}

/// A caller-supplied source of uniform random draws.
pub enum RandomSource {
    /// Draws from rand's thread-local generator.
    Thread(rand::rngs::ThreadRng),
    /// Replays a fixed sequence of draws; generation under such a source is
    /// reproducible.
    Fixed(FixedDraws),
}

impl RandomSource {
    pub open spec fn is_fixed(self) -> bool {
        match self {
            RandomSource::Fixed(_) => true,
            RandomSource::Thread(_) => false,
        }
    }

    /// The replayed state, for a fixed source.
    pub open spec fn fixed(self) -> FixedDraws
        recommends
            self.is_fixed(),
    {
        match self {
            RandomSource::Fixed(d) => d,
            RandomSource::Thread(_) => arbitrary(),
        }
    }

    /// A source drawing from rand's thread-local generator.
    pub fn from_thread() -> (s: RandomSource)
        ensures
            !s.is_fixed(),
    {
        RandomSource::Thread(new_thread_rng())
    }

    /// A source replaying the given draws.
    pub fn from_draws(draws: Vec<u64>) -> (s: RandomSource)
        ensures
            s.is_fixed(),
            s.fixed().draws == draws,
            s.fixed().next == 0,
    {
        RandomSource::Fixed(FixedDraws { draws, next: 0 })
    }

    /// A full-range draw, used as a priority key. Nothing relates one draw
    /// to the next; on a fixed source the draw and the new state are exactly
    /// the replayed ones.
    pub fn next_u64(&mut self) -> (r: u64)
        ensures
            old(self).is_fixed() ==> {
                &&& r == spec_next_u64(old(self).fixed())
                &&& final(self).is_fixed()
                &&& final(self).fixed() == spec_advance(old(self).fixed())
            },
            !old(self).is_fixed() ==> !final(self).is_fixed(),
    {
        match self {
            RandomSource::Thread(rng) => thread_u64(rng),
            RandomSource::Fixed(d) => {
                if d.next < d.draws.len() {
                    let r = d.draws[d.next];
                    d.next = d.next + 1;
                    r
                } else {
                    0
                }
            },
        }
    }

    /// A draw from the half-open range `lo..hi`; on a fixed source the draw
    /// and the new state are exactly the replayed ones.
    pub fn next_in_range(&mut self, lo: i32, hi: i32) -> (r: i32)
        requires
            lo < hi,
        ensures
            lo <= r < hi,
            old(self).is_fixed() ==> {
                &&& r == spec_in_range(old(self).fixed(), lo as int, hi as int)
                &&& final(self).is_fixed()
                &&& final(self).fixed() == spec_advance(old(self).fixed())
            },
            !old(self).is_fixed() ==> !final(self).is_fixed(),
    {
        match self {
            RandomSource::Thread(rng) => thread_range(rng, lo, hi),
            RandomSource::Fixed(d) => {
                let draw: u64 = if d.next < d.draws.len() {
                    let v = d.draws[d.next];
                    d.next = d.next + 1;
                    v
                } else {
                    0
                };
                let span: u64 = ((hi as i64) - (lo as i64)) as u64;
                let off: u64 = draw % span;
                proof {
                    assert(span == hi - lo);
                    assert(off == (draw as int) % (hi - lo));
                    assert(0 <= off < span);
                }
                let r: i32 = ((lo as i64) + (off as i64)) as i32;
                r
            },
        }
    }
}

/// Relies on rand::thread_rng to obtain the thread-local generator.
#[verifier::external_body]
fn new_thread_rng() -> rand::rngs::ThreadRng {
    rand::thread_rng()
}

/// Relies on rand's `Rng::gen` on the thread-local generator to draw an
/// arbitrary `u64`; nothing is promised of the value.
#[verifier::external_body]
fn thread_u64(rng: &mut rand::rngs::ThreadRng) -> u64 {
    rand::Rng::gen(rng)
}

/// Relies on rand's `Rng::gen_range` on the thread-local generator: the
/// call returns a value of the given half-open range, and panics on an
/// empty one, so the range is required non-empty here.
#[verifier::external_body]
fn thread_range(rng: &mut rand::rngs::ThreadRng, lo: i32, hi: i32) -> (r: i32)
    requires
        lo < hi,
    ensures
        lo <= r < hi,
{
    rand::Rng::gen_range(rng, lo..hi)
}

} // verus!
