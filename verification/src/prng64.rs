//! The generator itself.

use vstd::prelude::*;
use vstd::arithmetic::power2::pow2;
use crate::power::{lemma_jump_distance, lemma_long_jump_distance};
use crate::state::State;
use crate::stream::{lemma_advance_keeps_nonzero, lemma_drawn_is_outputs, lemma_step_keeps_nonzero};
use crate::table::{jump_table, lemma_constant_tables, long_jump_table, Table, JUMP, LONG_JUMP};
use crate::word::{add_wrapping, rotate_left};

verus! {

/// A pseudo-random number generator over 256 bits of state that yields 64-bit
/// values. It is fast and statistically strong, and not cryptographically
/// secure.
///
/// The state must not be all zero: the generator would never leave it and
/// would yield zero forever. Seeding is the caller's business, and nothing
/// here looks at the seed.
pub struct Prng64 {
    seed: [u64; 4],
}

impl View for Prng64 {
    type V = State;

    closed spec fn view(&self) -> State {
        State::from_words(self.seed@)
    }
}

impl Prng64 {
    /// Creates a generator whose state is `seed`, word for word.
    pub fn new(seed: [u64; 4]) -> (g: Prng64)
        ensures
            g@ == State::from_words(seed@),
    {
        Prng64 { seed }
    }

    /// Replaces the state by `seed`, word for word. What the generator did
    /// before has no bearing on what it yields afterwards.
    pub fn seed(&mut self, seed: [u64; 4])
        ensures
            final(self)@ == State::from_words(seed@),
            final(self)@ == old(self)@.reseeded(seed@),
    {
        self.seed = seed;
    }

    /// The four words of the current state.
    pub fn state(&self) -> (words: [u64; 4])
        ensures
            words@ == self@.words(),
    {
        self.seed
    }

    /// Draws the next value and steps the state. A state that is not all
    /// zero stays so.
    pub fn next(&mut self) -> (result: u64)
        ensures
            result == old(self)@.output(),
            final(self)@ == old(self)@.step(),
            final(self)@.is_degenerate() == old(self)@.is_degenerate(),
    {
        proof {
            lemma_step_keeps_nonzero(self@);
        }
        let result: u64 = add_wrapping(
            rotate_left(add_wrapping(self.seed[0], self.seed[3]), 23),
            self.seed[0],
        );

        let t: u64 = self.seed[1] << 17;

        self.seed[2] ^= self.seed[0];
        self.seed[3] ^= self.seed[1];
        self.seed[1] ^= self.seed[2];
        self.seed[0] ^= self.seed[3];

        self.seed[2] ^= t;

        self.seed[3] = rotate_left(self.seed[3], 45);

        result
    }

    /// Pulls the next value of the stream. The stream has no end, so the
    /// result is never `None`; a pull is a draw.
    pub fn pull(&mut self) -> (item: Option<u64>)
        ensures
            item == Some(old(self)@.output()),
            final(self)@ == old(self)@.step(),
            final(self)@.is_degenerate() == old(self)@.is_degenerate(),
    {
        Some(self.next())
    }

    /// Pulls the next `n` values of the stream, in order: the values that
    /// `n` draws in a row return.
    pub fn take(&mut self, n: usize) -> (items: Vec<u64>)
        ensures
            items@ == old(self)@.outputs(n as nat),
            items@ == old(self)@.drawn(n as nat),
            final(self)@ == old(self)@.advance(n as nat),
            final(self)@.is_degenerate() == old(self)@.is_degenerate(),
    {
        proof {
            lemma_drawn_is_outputs(self@, n as nat);
            lemma_advance_keeps_nonzero(self@, n as nat);
        }
        let mut items: Vec<u64> = Vec::new();
        for i in 0..n
            invariant
                items@ == old(self)@.outputs(i as nat),
                self@ == old(self)@.advance(i as nat),
        {
            let item: u64 = self.next();
            items.push(item);
        }
        items
    }

    /// Jumps by an arbitrary coefficient table: the new state is the
    /// exclusive or of the states that lie `i` draws ahead, over every `i`
    /// below 256 whose coefficient in `table` is set. The cost is that of 256
    /// draws, whatever the table holds.
    pub fn jump_with(&mut self, table: [u64; 4])
        ensures
            final(self)@ == old(self)@.jump_by(Table::from_words(table@)),
    {
        let mut s0: u64 = 0;
        let mut s1: u64 = 0;
        let mut s2: u64 = 0;
        let mut s3: u64 = 0;

        for w in 0..4usize
            invariant
                self@ == old(self)@.advance((64 * w) as nat),
                (State { s0, s1, s2, s3 }) == old(self)@.combine(
                    Table::from_words(table@),
                    (64 * w) as nat,
                ),
        {
            let jump_constant: u64 = table[w];
            for b in 0..64u32
                invariant
                    w < 4,
                    jump_constant == table@[w as int],
                    self@ == old(self)@.advance((64 * w + b) as nat),
                    (State { s0, s1, s2, s3 }) == old(self)@.combine(
                        Table::from_words(table@),
                        (64 * w + b) as nat,
                    ),
            {
                if (jump_constant & 1u64 << b) != 0 {
                    s0 ^= self.seed[0];
                    s1 ^= self.seed[1];
                    s2 ^= self.seed[2];
                    s3 ^= self.seed[3];
                }
                self.next();
            }
        }

        self.seed[0] = s0;
        self.seed[1] = s1;
        self.seed[2] = s2;
        self.seed[3] = s3;
    }

    /// Skips exactly 2^128 draws, at the cost of 256. Generators that stand
    /// 0, 1, 2, ... jumps away from one state yield windows of one stream
    /// that start 2^128 values apart: streams for parallel use.
    pub fn jump(&mut self)
        ensures
            final(self)@ == old(self)@.advance(pow2(128)),
            final(self)@ == old(self)@.jump_by(jump_table()),
            final(self)@.is_degenerate() == old(self)@.is_degenerate(),
    {
        proof {
            lemma_constant_tables();
            lemma_jump_distance(self@);
            lemma_advance_keeps_nonzero(self@, pow2(128));
        }
        self.jump_with(JUMP);
    }

    /// Skips exactly 2^192 draws, at the cost of 256: as far as 2^64 jumps.
    /// Long jumps give starting points for groups of streams, and jumps
    /// from each starting point give the streams of its group.
    pub fn long_jump(&mut self)
        ensures
            final(self)@ == old(self)@.advance(pow2(192)),
            final(self)@ == old(self)@.jump_by(long_jump_table()),
            final(self)@.is_degenerate() == old(self)@.is_degenerate(),
    {
        proof {
            lemma_constant_tables();
            lemma_long_jump_distance(self@);
            lemma_advance_keeps_nonzero(self@, pow2(192));
        }
        self.jump_with(LONG_JUMP);
    }
}

} // verus!
