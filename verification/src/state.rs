//! The mathematical model of the generator: its 256-bit state, the step that
//! one output costs, and the streams that follow from a state.

use vstd::prelude::*;
use crate::word::{rotl, wrapping_sum};

verus! {

/// The four 64-bit words that determine every future output.
pub struct State {
    pub s0: u64,
    pub s1: u64,
    pub s2: u64,
    pub s3: u64,
}

impl State {
    /// The state whose words are `w[0]`, `w[1]`, `w[2]`, `w[3]`.
    pub open spec fn from_words(w: Seq<u64>) -> State
        recommends
            w.len() == 4,
    {
        State { s0: w[0], s1: w[1], s2: w[2], s3: w[3] }
    }

    /// The four words, in order.
    pub open spec fn words(self) -> Seq<u64> {
        seq![self.s0, self.s1, self.s2, self.s3]
    }

    /// The all-zero state.
    pub open spec fn zero() -> State {
        State { s0: 0, s1: 0, s2: 0, s3: 0 }
    }

    /// A state is degenerate when all of its 256 bits are zero. The generator
    /// never leaves such a state and emits only zeros from it, so a seed must
    /// not be degenerate.
    pub open spec fn is_degenerate(self) -> bool {
        self == State::zero()
    }

    /// The value that the next draw returns.
    pub open spec fn output(self) -> u64 {
        wrapping_sum(rotl(wrapping_sum(self.s0, self.s3), 23), self.s0)
    }

    /// The state that the next draw leaves behind.
    pub open spec fn step(self) -> State {
        State {
            s0: self.s0 ^ (self.s3 ^ self.s1),
            s1: self.s1 ^ (self.s2 ^ self.s0),
            s2: (self.s2 ^ self.s0) ^ (self.s1 << 17),
            s3: rotl(self.s3 ^ self.s1, 45),
        }
    }

    /// The state after `n` draws.
    pub open spec fn advance(self, n: nat) -> State
        decreases n,
    {
        if n == 0 {
            self
        } else {
            self.advance((n - 1) as nat).step()
        }
    }

    /// The first `n` values of the stream that starts at this state: value
    /// `i` is the output of the state reached after `i` draws.
    pub open spec fn outputs(self, n: nat) -> Seq<u64> {
        Seq::new(n, |i: int| self.advance(i as nat).output())
    }

    /// The values that `n` successive draws return, one draw at a time: each
    /// draw returns the output of the current state and steps it.
    pub open spec fn drawn(self, n: nat) -> Seq<u64>
        decreases n,
    {
        if n == 0 {
            Seq::empty()
        } else {
            seq![self.output()] + self.step().drawn((n - 1) as nat)
        }
    }

    /// The state that replaces this one on reseeding with the words `w`.
    /// Nothing of the replaced state survives.
    pub open spec fn reseeded(self, w: Seq<u64>) -> State
        recommends
            w.len() == 4,
    {
        State::from_words(w)
    }

    /// Word-wise exclusive or of two states.
    pub open spec fn xor(self, other: State) -> State {
        State {
            s0: self.s0 ^ other.s0,
            s1: self.s1 ^ other.s1,
            s2: self.s2 ^ other.s2,
            s3: self.s3 ^ other.s3,
        }
    }
}

} // verus!
