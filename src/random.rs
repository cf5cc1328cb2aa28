//! The pseudo-random generators the library draws from, all from `rand`.

use rand::rngs::{StdRng, ThreadRng};
use rand::seq::SliceRandom;
use rand::{Rng, RngCore, SeedableRng};
use vstd::prelude::*;

use crate::task::Task;

verus! {

#[verifier::external_type_specification]
#[verifier::external_body]
pub struct ExStdRng(StdRng);

#[verifier::external_type_specification]
#[verifier::external_body]
pub struct ExThreadRng(ThreadRng);

/// Relies on `rand::thread_rng`: a handle on the thread's entropy-seeded generator.
#[verifier::external_body]
pub(crate) fn entropy_rng() -> ThreadRng {
    rand::thread_rng()
}

/// Relies on `RngCore::fill_bytes`: it overwrites the bytes in place.
#[verifier::external_body]
pub(crate) fn fill_random(rng: &mut ThreadRng, buf: &mut Vec<u8>)
    ensures
        final(buf)@.len() == old(buf)@.len(),
{
    rng.fill_bytes(buf.as_mut_slice())
}

/// Relies on `Rng::gen` for a 32-byte array: a seed drawn from entropy.
#[verifier::external_body]
pub(crate) fn random_seed(rng: &mut ThreadRng) -> [u8; 32] {
    rng.gen()
}

/// The index `SliceRandom::choose` picks on the last of a series of calls,
/// with slice lengths `bounds` in call order, on a `StdRng` seeded with `seed`.
pub uninterp spec fn drawn_index(seed: Seq<u8>, bounds: Seq<nat>) -> nat;

/// The order `SliceRandom::shuffle` leaves `n` items in, on a `StdRng` fresh
/// from `seed`: position `i` receives the item from position
/// `shuffle_order(seed, n)[i]`.
pub uninterp spec fn shuffle_order(seed: Seq<u8>, n: nat) -> Seq<int>;

/// `order` rearranges `n` positions: each once.
pub open spec fn is_permutation(order: Seq<int>, n: nat) -> bool {
    &&& order.len() == n
    &&& forall|i: int| 0 <= i < n ==> 0 <= #[trigger] order[i] < n
    &&& forall|i: int, j: int| 0 <= i < j < n ==> #[trigger] order[i] != #[trigger] order[j]
}

/// Relies on `SeedableRng::from_seed` for `StdRng`: a generator whose whole
/// output is fixed by the seed.
#[verifier::external_body]
fn seeded_rng(seed: [u8; 32]) -> StdRng {
    StdRng::from_seed(seed)
}

/// A seeded generator, with the seed and the slice lengths of the draws made
/// so far: what its next draw depends on.
pub struct SeededRng {
    rng: StdRng,
    seed: Ghost<Seq<u8>>,
    bounds: Ghost<Seq<nat>>,
}

impl SeededRng {
    pub closed spec fn seed(&self) -> Seq<u8> {
        self.seed@
    }

    pub closed spec fn bounds(&self) -> Seq<nat> {
        self.bounds@
    }

    pub fn new(seed: [u8; 32]) -> (r: SeededRng)
        ensures
            r.seed() == seed@,
            r.bounds() == Seq::<nat>::empty(),
    {
        SeededRng { rng: seeded_rng(seed), seed: Ghost(seed@), bounds: Ghost(Seq::empty()) }
    }

    /// Relies on `SliceRandom::choose`: on a non-empty slice it returns the
    /// element at an index drawn below the slice's length, and that index
    /// depends only on the seed and the lengths drawn for so far.
    #[verifier::external_body]
    pub(crate) fn choose_byte(&mut self, symbols: &[u8]) -> (r: u8)
        requires
            symbols@.len() > 0,
        ensures
            final(self).seed() == old(self).seed(),
            final(self).bounds() == old(self).bounds().push(symbols@.len()),
            drawn_index(final(self).seed(), final(self).bounds()) < symbols@.len() && r
                == symbols@[drawn_index(final(self).seed(), final(self).bounds()) as int],
    {
        *symbols.choose(&mut self.rng).unwrap()
    }

    /// Relies on `SliceRandom::shuffle` on a fresh generator: it swaps each
    /// position, from the last down, with one drawn at or below it, so the
    /// result is a rearrangement fixed by the seed and the length.
    #[verifier::external_body]
    pub(crate) fn shuffle_tasks(self, tasks: &mut Vec<Task>)
        requires
            self.bounds() == Seq::<nat>::empty(),
        ensures
            final(tasks)@.len() == old(tasks)@.len() && is_permutation(
                shuffle_order(self.seed(), old(tasks)@.len()),
                old(tasks)@.len(),
            ),
            final(tasks)@ == Seq::new(
                old(tasks)@.len(),
                |i: int| old(tasks)@[shuffle_order(self.seed(), old(tasks)@.len())[i]],
            ),
            final(tasks)@.to_multiset() == old(tasks)@.to_multiset(),
    {
        let mut rng = self.rng;
        tasks.shuffle(&mut rng)
    }
}

} // verus!
