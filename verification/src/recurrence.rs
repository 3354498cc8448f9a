//! The linear recurrence behind the generator. One draw is a linear map on
//! the 256 bits of the state, so the states of a stream obey a recurrence of
//! order 256: the state 256 draws ahead is a fixed combination of the 256
//! states before it. The combination is the characteristic polynomial of the
//! map, less its leading term.

use vstd::prelude::*;
use crate::jump::{
    lemma_advance_linear, lemma_combine_degenerate, lemma_combine_linear, lemma_word_xor,
};
use crate::state::State;
use crate::stream::lemma_degenerate_forever;
use crate::table::Table;

verus! {

/// The table of the recurrence: `x^256` reduced by the characteristic
/// polynomial of the step.
pub open spec fn reduction() -> Table {
    Table {
        w0: 0x9d116f2bb0f0f001,
        w1: 0x0280002bcefd1a5e,
        w2: 0x04b4edcf26259f85,
        w3: 0x0003c03c3f3ecb19,
    }
}

/// The word `w` with its bits below `b` cleared.
spec fn clear_below(w: u64, b: nat) -> u64 {
    if b >= 64 {
        0
    } else {
        (w >> b) << b
    }
}

impl State {
    /// The state that holds `w` as word `k` and zero in the other words.
    pub open spec fn single(k: nat, w: u64) -> State {
        State {
            s0: if k == 0 { w } else { 0 },
            s1: if k == 1 { w } else { 0 },
            s2: if k == 2 { w } else { 0 },
            s3: if k == 3 { w } else { 0 },
        }
    }

    /// The state whose only set bit is bit `j` of the 256, for `j < 256`.
    pub open spec fn basis(j: nat) -> State {
        State::single(j / 64, 1u64 << (j % 64))
    }

    /// Whether the recurrence holds at this state: the state 256 draws ahead
    /// is the combination of the next 256 states, this one included, that
    /// the reduction table chooses.
    pub open spec fn recurs(self) -> bool {
        self.advance(256) == self.combine(reduction(), 256)
    }

    /// Walks from distance `i` to distance 256, stepping the state and
    /// collecting in `acc` the states whose coefficient is set. The result
    /// is the state reached and what was collected.
    pub open spec fn walk(self, table: Table, i: nat, acc: State) -> (State, State)
        decreases 256 - i,
    {
        if i >= 256 {
            (self, acc)
        } else {
            self.step().walk(
                table,
                i + 1,
                if table.coefficient(i) {
                    acc.xor(self)
                } else {
                    acc
                },
            )
        }
    }

    /// Whether a walk by the reduction table ends with the state reached
    /// equal to what was collected.
    pub open spec fn closes(self) -> bool {
        let end = self.walk(reduction(), 0, State::zero());
        end.0 == end.1
    }
}

/// Whether the walk closes from every basis state `j` with `lo <= j < hi`.
pub open spec fn basis_closes(lo: nat, hi: nat) -> bool
    decreases hi - lo,
{
    lo >= hi || (State::basis(lo).closes() && basis_closes(lo + 1, hi))
}

/// A walk that starts `i` draws in, with the combination up to `i` in hand,
/// ends 256 draws in with the whole combination.
pub proof fn lemma_walk(s: State, table: Table, i: nat)
    requires
        i <= 256,
    ensures
        s.advance(i).walk(table, i, s.combine(table, i)) == (
            s.advance(256),
            s.combine(table, 256),
        ),
    decreases 256 - i,
{
    if i < 256 {
        lemma_walk(s, table, i + 1);
        assert(s.advance(i + 1) == s.advance(((i + 1) - 1) as nat).step());
        assert(s.combine(table, i + 1) == if table.coefficient(i) {
            s.combine(table, i).xor(s.advance(i))
        } else {
            s.combine(table, i)
        });
    }
}

/// What holds of a range of basis states holds of each of them.
proof fn lemma_basis_closes_at(lo: nat, hi: nat, j: nat)
    requires
        basis_closes(lo, hi),
        lo <= j < hi,
    ensures
        State::basis(j).closes(),
    decreases hi - lo,
{
    if lo < j {
        lemma_basis_closes_at(lo + 1, hi, j);
    }
}

/// The recurrence holds at every basis state. This is a finite
/// computation: 256 walks of 256 steps each, taken one word of the state at
/// a time.
pub proof fn lemma_basis_recurs(j: nat)
    requires
        j < 256,
    ensures
        State::basis(j).recurs(),
{
    assert(basis_closes(0, 64)) by (bit_vector);
    assert(basis_closes(64, 128)) by (bit_vector);
    assert(basis_closes(128, 192)) by (bit_vector);
    assert(basis_closes(192, 256)) by (bit_vector);
    let lo = (j / 64 * 64) as nat;
    lemma_basis_closes_at(lo, lo + 64, j);
    lemma_walk(State::basis(j), reduction(), 0);
}

/// The recurrence holds at the all-zero state.
pub proof fn lemma_recurs_zero()
    ensures
        State::zero().recurs(),
{
    lemma_degenerate_forever(256);
    lemma_combine_degenerate(reduction(), 256);
}

/// The recurrence holds at the exclusive or of two states at which it
/// holds.
pub proof fn lemma_recurs_xor(a: State, b: State)
    requires
        a.recurs(),
        b.recurs(),
    ensures
        a.xor(b).recurs(),
{
    lemma_advance_linear(a, b, 256);
    lemma_combine_linear(a, b, reduction(), 256);
}

/// A word without its bits below `b` is the word without its bits below
/// `b + 1`, with bit `b` put back; and bit `b` alone is zero or a basis
/// word.
proof fn lemma_peel(w: u64, b: u64, above: u64)
    by (bit_vector)
    requires
        b < 64,
        above == b + 1,
    ensures
        b < 63 ==> (w >> b) << b == ((w >> above) << above) ^ (w & (1u64 << b)),
        b == 63 ==> (w >> b) << b == w & (1u64 << b),
        w & (1u64 << b) == 0 || w & (1u64 << b) == 1u64 << b,
        (w >> 0) << 0 == w,
{
}

/// The recurrence holds at every state with a single non-zero word, taken
/// bit by bit from the top.
proof fn lemma_recurs_single(k: nat, w: u64, b: nat)
    requires
        k < 4,
        b <= 64,
    ensures
        State::single(k, clear_below(w, b)).recurs(),
    decreases 64 - b,
{
    lemma_recurs_zero();
    if b < 64 {
        lemma_recurs_single(k, w, b + 1);
        lemma_peel(w, b as u64, (b + 1) as u64);
        lemma_word_xor(0, 0, 0, 0);
        let rest = clear_below(w, b + 1);
        let m = w & (1u64 << b);
        assert(clear_below(w, b) == rest ^ m) by {
            lemma_word_xor(m, 0, 0, 0);
        }
        assert(State::single(k, rest ^ m) == State::single(k, rest).xor(State::single(k, m)));
        assert(State::single(k, m).recurs()) by {
            if m != 0 {
                lemma_basis_recurs(64 * k + b);
                assert((64 * k + b) / 64 == k && (64 * k + b) % 64 == b);
            }
        }
        lemma_recurs_xor(State::single(k, rest), State::single(k, m));
    }
}

/// The recurrence holds at every state: 256 draws ahead lies the
/// combination of the next 256 states that the reduction table chooses.
pub proof fn lemma_recurrence(s: State)
    ensures
        s.advance(256) == s.combine(reduction(), 256),
{
    lemma_recurs_single(0, s.s0, 0);
    lemma_recurs_single(1, s.s1, 0);
    lemma_recurs_single(2, s.s2, 0);
    lemma_recurs_single(3, s.s3, 0);
    lemma_peel(s.s0, 0, 1);
    lemma_peel(s.s1, 0, 1);
    lemma_peel(s.s2, 0, 1);
    lemma_peel(s.s3, 0, 1);
    let (a, b, c, d) = (
        State::single(0, s.s0),
        State::single(1, s.s1),
        State::single(2, s.s2),
        State::single(3, s.s3),
    );
    lemma_word_xor(0, 0, 0, 0);
    lemma_word_xor(s.s0, 0, 0, 0);
    lemma_word_xor(s.s1, 0, 0, 0);
    lemma_word_xor(s.s2, 0, 0, 0);
    lemma_word_xor(s.s3, 0, 0, 0);
    lemma_recurs_xor(a, b);
    lemma_recurs_xor(c, d);
    lemma_recurs_xor(a.xor(b), c.xor(d));
    assert(a.xor(b).xor(c.xor(d)) == s);
}

} // verus!
