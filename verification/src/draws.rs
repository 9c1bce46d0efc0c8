//! The random draws a generation run consumes, as an explicit stream.

use vstd::prelude::*;

verus! {

/// Every raw draw is below this limit.
pub const DRAW_LIMIT: u32 = 0x10_0000;

/// A stream of raw draws, read from front to back. Past its end the stream
/// yields zeros, so that a short script still drives a whole run.
#[derive(Clone, Debug)]
pub struct Draws {
    values: Vec<u32>,
    next: usize,
}

/// What the next draw below `bound` yields on the stream `rest`.
pub open spec fn first_draw(rest: Seq<u32>, bound: int) -> int {
    if rest.len() > 0 {
        rest[0] as int % bound
    } else {
        0
    }
}

/// The stream `rest` after one draw.
pub open spec fn after_draw(rest: Seq<u32>) -> Seq<u32> {
    if rest.len() > 0 {
        rest.drop_first()
    } else {
        rest
    }
}

impl View for Draws {
    type V = Seq<u32>;

    /// The draws that have not been read yet.
    closed spec fn view(&self) -> Seq<u32> {
        if self.next <= self.values@.len() {
            self.values@.skip(self.next as int)
        } else {
            Seq::empty()
        }
    }
}

/// `macroquad::rand::gen_range` on `u32`: one number drawn from the
/// process-wide generator. The generator scales a 32-bit output into
/// `[low, high)` in double precision; for bounds up to [`DRAW_LIMIT`] that
/// arithmetic is exact, so the result is at least `low` and below `high`.
/// Which number comes is not stated.
#[verifier::external_body]
fn gen_range(low: u32, high: u32) -> (r: u32)
    requires
        low < high <= DRAW_LIMIT,
    ensures
        low <= r < high,
{
    macroquad::rand::gen_range(low, high)
}

impl Draws {
    /// A stream that yields `values` in order.
    pub fn scripted(values: Vec<u32>) -> (draws: Draws)
        ensures
            draws@ == values@,
    {
        Draws { values, next: 0 }
    }

    /// A stream of `count` numbers drawn from the process-wide random
    /// generator, each below [`DRAW_LIMIT`].
    pub fn random(count: usize) -> (draws: Draws)
        ensures
            draws@.len() == count,
            forall|i: int| 0 <= i < draws@.len() ==> draws@[i] < DRAW_LIMIT,
    {
        let mut values: Vec<u32> = Vec::new();
        let mut i: usize = 0;
        while i < count
            invariant
                i <= count,
                values@.len() == i,
                forall|k: int| 0 <= k < values@.len() ==> values@[k] < DRAW_LIMIT,
            decreases count - i,
        {
            values.push(gen_range(0, DRAW_LIMIT));
            i = i + 1;
        }
        Draws { values, next: 0 }
    }

    /// Number of draws that have not been read yet.
    pub fn remaining(&self) -> (n: usize)
        ensures
            n == self@.len(),
    {
        if self.next <= self.values.len() {
            self.values.len() - self.next
        } else {
            0
        }
    }

    /// Reads one draw and reduces it to a number below `bound`.
    pub fn below(&mut self, bound: u64) -> (r: u64)
        requires
            bound > 0,
        ensures
            r == first_draw(old(self)@, bound as int),
            r < bound,
            final(self)@ == after_draw(old(self)@),
    {
        if self.next < self.values.len() {
            let raw: u32 = self.values[self.next];
            self.next = self.next + 1;
            (raw as u64) % bound
        } else {
            0
        }
    }
}

} // verus!
