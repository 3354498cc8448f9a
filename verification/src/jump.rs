//! Skipping ahead. A jump replaces the state by the exclusive or of the
//! states that lie at chosen distances ahead of it; a coefficient table
//! chooses the distances. Because one draw is a linear map on the 256 bits
//! of the state, so is every jump, and jumps commute with draws and with
//! each other.

use vstd::prelude::*;
use crate::state::State;
use crate::stream::{lemma_degenerate_forever, lemma_degenerate_step, lemma_step_then_advance};
use crate::table::{lemma_unit_coefficient, lemma_xor_coefficient, Table};
use crate::word::rotl;

verus! {

impl State {
    /// The exclusive or of the states `self.advance(i)` over the distances
    /// `i < n` whose coefficient in `table` is set.
    pub open spec fn combine(self, table: Table, n: nat) -> State
        decreases n,
    {
        if n == 0 {
            State::zero()
        } else {
            let rest = self.combine(table, (n - 1) as nat);
            if table.coefficient((n - 1) as nat) {
                rest.xor(self.advance((n - 1) as nat))
            } else {
                rest
            }
        }
    }

    /// The state that a jump by `table` leads to: the exclusive or of the
    /// states `self.advance(i)` over all `i < 256` whose coefficient is set.
    pub open spec fn jump_by(self, table: Table) -> State {
        self.combine(table, 256)
    }
}

/// Exclusive or on words is associative and commutative, zero is its
/// identity, and every word is its own inverse.
pub proof fn lemma_word_xor(a: u64, b: u64, c: u64, d: u64)
    by (bit_vector)
    ensures
        a ^ b == b ^ a,
        (a ^ b) ^ c == a ^ (b ^ c),
        (a ^ b) ^ (c ^ d) == (a ^ c) ^ (b ^ d),
        a ^ 0 == a,
        0 ^ a == a,
        a ^ a == 0,
{
}

/// Exclusive or on states is associative and commutative, the all-zero state
/// is its identity, and every state is its own inverse.
pub proof fn lemma_state_xor(a: State, b: State, c: State, d: State)
    ensures
        a.xor(b) == b.xor(a),
        a.xor(b).xor(c) == a.xor(b.xor(c)),
        a.xor(b).xor(c.xor(d)) == a.xor(c).xor(b.xor(d)),
        a.xor(State::zero()) == a,
        State::zero().xor(a) == a,
        a.xor(a) == State::zero(),
{
    lemma_word_xor(a.s0, b.s0, c.s0, d.s0);
    lemma_word_xor(a.s1, b.s1, c.s1, d.s1);
    lemma_word_xor(a.s2, b.s2, c.s2, d.s2);
    lemma_word_xor(a.s3, b.s3, c.s3, d.s3);
}

/// The step is linear over exclusive or, word by word.
proof fn lemma_step_linear_words(
    a0: u64,
    a1: u64,
    a2: u64,
    a3: u64,
    b0: u64,
    b1: u64,
    b2: u64,
    b3: u64,
)
    by (bit_vector)
    ensures
        (a0 ^ b0) ^ ((a3 ^ b3) ^ (a1 ^ b1)) == (a0 ^ (a3 ^ a1)) ^ (b0 ^ (b3 ^ b1)),
        (a1 ^ b1) ^ ((a2 ^ b2) ^ (a0 ^ b0)) == (a1 ^ (a2 ^ a0)) ^ (b1 ^ (b2 ^ b0)),
        ((a2 ^ b2) ^ (a0 ^ b0)) ^ ((a1 ^ b1) << 17) == ((a2 ^ a0) ^ (a1 << 17)) ^ ((b2 ^ b0) ^ (b1
            << 17)),
        rotl((a3 ^ b3) ^ (a1 ^ b1), 45) == rotl(a3 ^ a1, 45) ^ rotl(b3 ^ b1, 45),
{
}

/// The step is linear: stepping the exclusive or of two states gives the
/// exclusive or of the stepped states.
pub proof fn lemma_step_linear(a: State, b: State)
    ensures
        a.xor(b).step() == a.step().xor(b.step()),
{
    lemma_step_linear_words(a.s0, a.s1, a.s2, a.s3, b.s0, b.s1, b.s2, b.s3);
}

/// Advancing is linear.
pub proof fn lemma_advance_linear(a: State, b: State, n: nat)
    ensures
        a.xor(b).advance(n) == a.advance(n).xor(b.advance(n)),
    decreases n,
{
    if n > 0 {
        lemma_advance_linear(a, b, (n - 1) as nat);
        lemma_step_linear(a.advance((n - 1) as nat), b.advance((n - 1) as nat));
    }
}

/// Combining is linear in the state.
pub proof fn lemma_combine_linear(a: State, b: State, table: Table, n: nat)
    ensures
        a.xor(b).combine(table, n) == a.combine(table, n).xor(b.combine(table, n)),
    decreases n,
{
    if n == 0 {
        lemma_state_xor(State::zero(), State::zero(), State::zero(), State::zero());
    } else {
        let m = (n - 1) as nat;
        lemma_combine_linear(a, b, table, m);
        lemma_advance_linear(a, b, m);
        lemma_state_xor(a.combine(table, m), b.combine(table, m), a.advance(m), b.advance(m));
    }
}

/// Combining the all-zero state gives the all-zero state.
pub proof fn lemma_combine_degenerate(table: Table, n: nat)
    ensures
        State::zero().combine(table, n) == State::zero(),
    decreases n,
{
    if n > 0 {
        let m = (n - 1) as nat;
        lemma_combine_degenerate(table, m);
        lemma_degenerate_forever(m);
        lemma_state_xor(State::zero(), State::zero(), State::zero(), State::zero());
    }
}

/// Combining commutes with the step.
pub proof fn lemma_combine_step(s: State, table: Table, n: nat)
    ensures
        s.step().combine(table, n) == s.combine(table, n).step(),
    decreases n,
{
    if n == 0 {
        lemma_degenerate_step();
    } else {
        let m = (n - 1) as nat;
        lemma_combine_step(s, table, m);
        lemma_step_then_advance(s, m);
        lemma_step_linear(s.combine(table, m), s.advance(m));
    }
}

/// Combining commutes with advancing.
pub proof fn lemma_combine_advance(s: State, table: Table, n: nat, k: nat)
    ensures
        s.advance(k).combine(table, n) == s.combine(table, n).advance(k),
    decreases k,
{
    if k > 0 {
        lemma_combine_advance(s, table, n, (k - 1) as nat);
        lemma_combine_step(s.advance((k - 1) as nat), table, n);
    }
}

/// Two combinations commute with each other.
pub proof fn lemma_combine_combine(s: State, t: Table, m: nat, u: Table, n: nat)
    ensures
        s.combine(u, n).combine(t, m) == s.combine(t, m).combine(u, n),
    decreases n,
{
    if n == 0 {
        lemma_combine_degenerate(t, m);
    } else {
        let k = (n - 1) as nat;
        lemma_combine_combine(s, t, m, u, k);
        lemma_combine_advance(s, t, m, k);
        lemma_combine_linear(s.combine(u, k), s.advance(k), t, m);
    }
}

/// Combining is linear in the table: the exclusive or of two tables
/// combines to the exclusive or of what each combines to.
pub proof fn lemma_combine_table_xor(s: State, p: Table, q: Table, n: nat)
    requires
        n <= 256,
    ensures
        s.combine(p.xor(q), n) == s.combine(p, n).xor(s.combine(q, n)),
    decreases n,
{
    if n == 0 {
        lemma_state_xor(State::zero(), State::zero(), State::zero(), State::zero());
    } else {
        let m = (n - 1) as nat;
        let (a, b, x) = (s.combine(p, m), s.combine(q, m), s.advance(m));
        lemma_combine_table_xor(s, p, q, m);
        lemma_xor_coefficient(p, q, m);
        let zero = State::zero();
        if p.coefficient(m) && q.coefficient(m) {
            lemma_state_xor(a, x, b, x);
            lemma_state_xor(x, x, zero, zero);
            lemma_state_xor(a.xor(b), zero, zero, zero);
        } else if p.coefficient(m) {
            lemma_state_xor(a, x, b, zero);
            lemma_state_xor(b, zero, zero, zero);
            lemma_state_xor(x, zero, zero, zero);
        } else if q.coefficient(m) {
            lemma_state_xor(a, b, x, zero);
        }
    }
}

/// A jump commutes with drawing: jumping after `k` draws reaches the state
/// that `k` draws after the jump reach. So the streams that start at two
/// states one jump apart stay one jump apart.
pub proof fn lemma_jump_commutes_with_advance(s: State, table: Table, k: nat)
    ensures
        s.advance(k).jump_by(table) == s.jump_by(table).advance(k),
{
    lemma_combine_advance(s, table, 256, k);
}

/// Jumps by two tables can be taken in either order.
pub proof fn lemma_jumps_commute(s: State, t: Table, u: Table)
    ensures
        s.jump_by(u).jump_by(t) == s.jump_by(t).jump_by(u),
{
    lemma_combine_combine(s, t, 256, u, 256);
}

/// A jump is linear, and it maps the all-zero state to itself.
pub proof fn lemma_jump_linear(a: State, b: State, table: Table)
    ensures
        a.xor(b).jump_by(table) == a.jump_by(table).xor(b.jump_by(table)),
        State::zero().jump_by(table) == State::zero(),
{
    lemma_combine_linear(a, b, table, 256);
    lemma_combine_degenerate(table, 256);
}

/// Combining by the unit table of `m` picks the state `m` draws ahead, once
/// the distance bound is past `m`.
proof fn lemma_combine_unit(s: State, m: nat, n: nat)
    requires
        m < 256,
        n <= 256,
    ensures
        s.combine(Table::unit(m), n) == if n > m {
            s.advance(m)
        } else {
            State::zero()
        },
    decreases n,
{
    if n > 0 {
        let k = (n - 1) as nat;
        lemma_combine_unit(s, m, k);
        lemma_unit_coefficient(m, k);
        lemma_state_xor(s.advance(m), State::zero(), State::zero(), State::zero());
    }
}

/// A jump by the table whose only coefficient is `m` is exactly `m` draws.
pub proof fn lemma_unit_jump(s: State, m: nat)
    requires
        m < 256,
    ensures
        s.jump_by(Table::unit(m)) == s.advance(m),
{
    lemma_combine_unit(s, m, 256);
}

} // verus!
