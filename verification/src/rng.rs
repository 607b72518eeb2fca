use vstd::prelude::*;
use crate::fixed::{clamp_spec, ONE};

verus! {

// Randomness is an injected capability: every routine that draws random
// numbers takes a source explicitly, so tests can substitute a prepared,
// deterministic sequence of draws.

/// A source of fixed-point draws in [0, ONE]. With `use_thread` set it asks
/// the process-wide random generator; otherwise it replays the prepared
/// `draws` in order (each clamped into [0, ONE]) and yields ONE once they are
/// exhausted.
pub struct Rng {
    pub use_thread: bool,
    pub draws: Vec<i128>,
    pub next: usize,
}

/// Relies on rand::random: draws a uniform u64 from the thread-local
/// generator. Nothing can be promised of the value.
#[verifier::external_body]
fn random_u64() -> u64 {
    rand::random()
}

impl Rng {
    /// A source backed by the process-wide random generator.
    pub fn thread() -> (r: Rng)
        ensures
            r.use_thread,
    {
        Rng { use_thread: true, draws: Vec::new(), next: 0 }
    }

    /// A deterministic source that replays the given draws.
    pub fn fixed(draws: Vec<i128>) -> (r: Rng)
        ensures
            !r.use_thread,
            r.draws == draws,
            r.next == 0,
    {
        Rng { use_thread: false, draws, next: 0 }
    }

    /// Draw one scalar in [0, ONE].
    pub fn unit(&mut self) -> (r: i128)
        ensures
            0 <= r <= ONE,
            final(self).use_thread == old(self).use_thread,
            final(self).draws == old(self).draws,
            !old(self).use_thread ==> {
                &&& (old(self).next < old(self).draws.len() ==> final(self).next == old(self).next
                    + 1 && r == clamp_spec(old(self).draws[old(self).next as int] as int, 0, ONE as int))
                &&& (old(self).next >= old(self).draws.len() ==> final(self).next == old(
                self).next && r == ONE)
            },
    {
        if self.use_thread {
            let d: u64 = random_u64();
            let masked: u64 = d & 0xFFFF;
            proof {
                assert(d & 0xFFFF <= 0xFFFF) by (bit_vector);
            }
            masked as i128
        } else {
            if self.next < self.draws.len() {
                let v: i128 = self.draws[self.next];
                self.next = self.next + 1;
                crate::fixed::clamp_fp(v, 0, ONE)
            } else {
                ONE
            }
        }
    }

    /// Draw one scalar in [-ONE, ONE].
    pub fn symmetric(&mut self) -> (r: i128)
        ensures
            -ONE <= r <= ONE,
    {
        let d: i128 = self.unit();
        2 * d - ONE
    }
}

} // verus!
