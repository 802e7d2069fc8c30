//! Random sources for resolving a chart.
use vstd::prelude::*;

use rand::rngs::StdRng;

use crate::tree::RandomSource;

verus! {

#[verifier::external_type_specification]
#[verifier::external_body]
pub struct ExStdRng(rand::rngs::StdRng);

/// Relies on `rand::SeedableRng::seed_from_u64` for a generator whose
/// draws follow from the seed.
#[verifier::external_body]
fn std_rng_from_seed(seed: u64) -> StdRng {
    <StdRng as rand::SeedableRng>::seed_from_u64(seed)
}

/// Relies on `rand::Rng::random_range`, which draws uniformly from an
/// inclusive range and panics only on an empty one.
#[verifier::external_body]
fn std_rng_draw(rng: &mut StdRng, max: u128) -> (r: u128)
    requires
        max >= 1,
    ensures
        1 <= r <= max,
{
    rand::Rng::random_range(rng, 1..=max)
}

/// A seeded pseudo-random generator: the same seed gives the same draws.
pub struct SeededRandom {
    rng: StdRng,
    drawn: Ghost<Seq<u128>>,
}

impl SeededRandom {
    pub fn new(seed: u64) -> (r: SeededRandom)
        ensures
            r.history() == Seq::<u128>::empty(),
    {
        SeededRandom { rng: std_rng_from_seed(seed), drawn: Ghost(Seq::empty()) }
    }

    /// A source that draws from a generator the caller already has.
    pub fn from_rng(rng: StdRng) -> (r: SeededRandom)
        ensures
            r.history() == Seq::<u128>::empty(),
    {
        SeededRandom { rng, drawn: Ghost(Seq::empty()) }
    }
}

impl RandomSource for SeededRandom {
    closed spec fn history(&self) -> Seq<u128> {
        self.drawn@
    }

    fn draw(&mut self, max: u128) -> (r: u128) {
        let r = std_rng_draw(&mut self.rng, max);
        self.drawn = Ghost(self.drawn@.push(r));
        r
    }
}

/// A source that replays a list of draws in turn, starting over when the
/// list runs out. A draw above the bound gives the bound and a draw of 0
/// gives 1; an empty list always gives 1.
pub struct FixedDraws {
    draws: Vec<u128>,
    next: usize,
    drawn: Ghost<Seq<u128>>,
}

impl FixedDraws {
    pub fn new(draws: Vec<u128>) -> (r: FixedDraws)
        ensures
            r.list() == draws@,
            r.position() == 0,
            r.history() == Seq::<u128>::empty(),
    {
        FixedDraws { draws, next: 0, drawn: Ghost(Seq::empty()) }
    }

    /// The draws that are replayed.
    pub closed spec fn list(&self) -> Seq<u128> {
        self.draws@
    }

    /// The index of the next draw in the list.
    pub closed spec fn position(&self) -> nat {
        self.next as nat
    }
}

impl RandomSource for FixedDraws {
    closed spec fn history(&self) -> Seq<u128> {
        self.drawn@
    }

    fn draw(&mut self, max: u128) -> (r: u128) {
        self.next_draw(max)
    }
}

/// A value brought into the range from 1 to `max`.
pub open spec fn clamp(v: u128, max: u128) -> u128 {
    if v < 1 {
        1
    } else if v > max {
        max
    } else {
        v
    }
}

impl FixedDraws {
    /// The index of the draw that comes next: the position, or the start
    /// again once the list has run out.
    pub open spec fn next_index(&self) -> nat {
        if self.position() < self.list().len() {
            self.position()
        } else {
            0
        }
    }

    /// The next draw: the list entry at the next index brought into the
    /// range from 1 to `max` (1 for an empty list); the position moves on,
    /// back to the start after the last entry.
    pub fn next_draw(&mut self, max: u128) -> (r: u128)
        requires
            max >= 1,
        ensures
            1 <= r <= max,
            final(self).list() == old(self).list(),
            r == if old(self).list().len() == 0 {
                1
            } else {
                clamp(old(self).list()[old(self).next_index() as int], max)
            },
            old(self).list().len() > 0 ==> final(self).position() == if old(self).next_index() + 1
                < old(self).list().len() {
                old(self).next_index() + 1
            } else {
                0
            },
            final(self).history() == old(self).history().push(r),
    {
        let r = self.pick_next(max);
        self.drawn = Ghost(self.drawn@.push(r));
        r
    }

    fn pick_next(&mut self, max: u128) -> (r: u128)
        requires
            max >= 1,
        ensures
            1 <= r <= max,
            final(self).drawn == old(self).drawn,
            final(self).draws@ == old(self).draws@,
            r == if old(self).draws@.len() == 0 {
                1
            } else {
                clamp(old(self).draws@[old(self).next_index() as int], max)
            },
            old(self).draws@.len() > 0 ==> final(self).next as nat == if old(self).next_index() + 1
                < old(self).draws@.len() {
                old(self).next_index() + 1
            } else {
                0
            },
    {
        if self.draws.len() == 0 {
            return 1;
        }
        let i = if self.next < self.draws.len() {
            self.next
        } else {
            0
        };
        let v = self.draws[i];
        self.next = if i + 1 < self.draws.len() {
            i + 1
        } else {
            0
        };
        if v < 1 {
            1
        } else if v > max {
            max
        } else {
            v
        }
    }
}

} // verus!
