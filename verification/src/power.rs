//! How far a jump goes. Tables are read as polynomials in `x` over the
//! two-element field, modulo the characteristic polynomial of the step, with
//! `x` standing for one draw. Then the product of two tables stands for one
//! jump after the other, and a jump by the table of `x^n` is exactly `n`
//! draws. The tables of `jump` and `long_jump` are those of `x^(2^128)` and
//! `x^(2^192)`, reached from `x` by squaring 128 and 192 times.

use vstd::prelude::*;
use vstd::arithmetic::power2::{lemma2_to64, lemma_pow2_adds, lemma_pow2_unfold, pow2};
use crate::jump::{
    lemma_combine_advance, lemma_combine_degenerate, lemma_combine_step, lemma_combine_table_xor,
    lemma_state_xor, lemma_unit_jump,
};
use crate::recurrence::{lemma_recurrence, reduction};
use crate::state::State;
use crate::stream::{lemma_advance_keeps_nonzero, lemma_advance_sum, lemma_step_then_advance};
use crate::table::{
    jump_table, lemma_shifted_coefficient, lemma_zero_coefficient, long_jump_table, Table,
};

verus! {

impl Table {
    /// The table times `x`: every coefficient moves one place up, and a
    /// coefficient that falls out at the top comes back as the reduction
    /// table.
    pub open spec fn times_x(self) -> Table {
        if self.coefficient(255) {
            self.shifted().xor(reduction())
        } else {
            self.shifted()
        }
    }

    /// The table times `x^n`.
    pub open spec fn times_power(self, n: nat) -> Table
        decreases n,
    {
        if n == 0 {
            self
        } else {
            self.times_power((n - 1) as nat).times_x()
        }
    }

    /// The sum of `other * x^i` over the coefficients `i < n` of this
    /// table.
    pub open spec fn partial_product(self, other: Table, n: nat) -> Table
        decreases n,
    {
        if n == 0 {
            Table::zero()
        } else {
            let rest = self.partial_product(other, (n - 1) as nat);
            if self.coefficient((n - 1) as nat) {
                rest.xor(other.times_power((n - 1) as nat))
            } else {
                rest
            }
        }
    }

    /// Walks the coefficients of this table from `i` to 255 with `m`
    /// running through the multiples of the other table by powers of `x`,
    /// and collects in `acc` the multiples whose coefficient is set.
    pub open spec fn product_walk(self, i: nat, m: Table, acc: Table) -> Table
        decreases 256 - i,
    {
        if i >= 256 {
            acc
        } else {
            self.product_walk(
                i + 1,
                m.times_x(),
                if self.coefficient(i) {
                    acc.xor(m)
                } else {
                    acc
                },
            )
        }
    }

    /// The product of two tables.
    pub open spec fn times(self, other: Table) -> Table {
        self.product_walk(0, other, Table::zero())
    }

    /// The square of the table.
    pub open spec fn squared(self) -> Table {
        self.times(self)
    }

    /// The table squared `k` times over.
    pub open spec fn squared_times(self, k: nat) -> Table
        decreases k,
    {
        if k == 0 {
            self
        } else {
            self.squared_times((k - 1) as nat).squared()
        }
    }
}

impl State {
    /// The state after `k` jumps by the table of `jump`.
    pub open spec fn jumped(self, k: nat) -> State
        decreases k,
    {
        if k == 0 {
            self
        } else {
            self.jumped((k - 1) as nat).jump_by(jump_table())
        }
    }
}

/// Whether a jump by `table` is exactly `d` draws, from every state.
pub open spec fn skips(table: Table, d: nat) -> bool {
    forall|s: State| #[trigger] s.jump_by(table) == s.advance(d)
}

/// Milestones on the way from `x` to `x^(2^192)`: milestone `i` is the
/// table of `x^(2^(64 * i))`, for `i <= 3`. Milestone 2 is the table of
/// `jump` and milestone 3 is the table of `long_jump`.
pub open spec fn milestone(i: nat) -> Table {
    if i == 0 {
        Table::unit(1)
    } else if i == 1 {
        Table {
            w0: 0xb13c16e8096f0754,
            w1: 0xb60d6c5b8c78f106,
            w2: 0x34faff184785c20a,
            w3: 0x12e4a2fbfc19bff9,
        }
    } else if i == 2 {
        jump_table()
    } else {
        long_jump_table()
    }
}

/// The inverse of the table of `jump` plus one: their product is one.
pub open spec fn jump_plus_one_inverse() -> Table {
    Table {
        w0: 0xa4c3118442a86a29,
        w1: 0xbcf81f57c1700052,
        w2: 0x36de0ce5ae64c989,
        w3: 0x2676a01eb94590ab,
    }
}

/// The inverse of the table of `long_jump` plus one: their product is one.
pub open spec fn long_jump_plus_one_inverse() -> Table {
    Table {
        w0: 0x53a8c9e5fb26cf2d,
        w1: 0xd3984286e551fe60,
        w2: 0x6f35d56618b655ea,
        w3: 0x3e99637023d85695,
    }
}

/// Combining by the shifted table up to one distance more is combining by
/// the table from one draw ahead.
proof fn lemma_combine_shifted(s: State, p: Table, n: nat)
    requires
        n <= 255,
    ensures
        s.combine(p.shifted(), n + 1) == s.step().combine(p, n),
    decreases n,
{
    lemma_shifted_coefficient(p, n);
    assert(s.combine(p.shifted(), n + 1) == if p.shifted().coefficient(n) {
        s.combine(p.shifted(), n).xor(s.advance(n))
    } else {
        s.combine(p.shifted(), n)
    });
    if n > 0 {
        lemma_combine_shifted(s, p, (n - 1) as nat);
        lemma_step_then_advance(s, (n - 1) as nat);
    }
}

/// A jump by a table times `x` is the jump by the table and one draw.
pub proof fn lemma_times_x(s: State, p: Table)
    ensures
        s.jump_by(p.times_x()) == s.jump_by(p).step(),
{
    lemma_combine_step(s, p, 256);
    lemma_combine_shifted(s, p, 255);
    lemma_step_then_advance(s, 255);
    lemma_recurrence(s);
    if p.coefficient(255) {
        lemma_combine_table_xor(s, p.shifted(), reduction(), 256);
    }
}

/// A jump by a table times `x^n` is the jump by the table and `n` draws.
pub proof fn lemma_times_power(s: State, p: Table, n: nat)
    ensures
        s.jump_by(p.times_power(n)) == s.jump_by(p).advance(n),
    decreases n,
{
    if n > 0 {
        lemma_times_power(s, p, (n - 1) as nat);
        lemma_times_x(s, p.times_power((n - 1) as nat));
    }
}

/// A jump by the table of `x^n` is exactly `n` draws.
pub proof fn lemma_power_of_x(n: nat)
    ensures
        skips(Table::unit(0).times_power(n), n),
{
    assert forall|s: State| #[trigger]
        s.jump_by(Table::unit(0).times_power(n)) == s.advance(n) by {
        lemma_times_power(s, Table::unit(0), n);
        lemma_unit_jump(s, 0);
    }
}

/// Combining by the empty table gives the all-zero state.
pub proof fn lemma_combine_empty(s: State, n: nat)
    requires
        n <= 256,
    ensures
        s.combine(Table::zero(), n) == State::zero(),
    decreases n,
{
    if n > 0 {
        lemma_combine_empty(s, (n - 1) as nat);
        lemma_zero_coefficient((n - 1) as nat);
    }
}

/// A jump by a partial product is the jump by the second table, combined by
/// the first up to the same bound.
proof fn lemma_partial_product(s: State, u: Table, v: Table, n: nat)
    requires
        n <= 256,
    ensures
        s.jump_by(u.partial_product(v, n)) == s.jump_by(v).combine(u, n),
    decreases n,
{
    if n == 0 {
        lemma_combine_empty(s, 256);
    } else {
        let m = (n - 1) as nat;
        lemma_partial_product(s, u, v, m);
        if u.coefficient(m) {
            lemma_combine_table_xor(s, u.partial_product(v, m), v.times_power(m), 256);
            lemma_times_power(s, v, m);
        }
    }
}

/// The product walk, started at coefficient `i` with the multiple by `x^i`
/// and the partial product below `i` in hand, ends with the whole product.
proof fn lemma_product_walk(u: Table, v: Table, i: nat)
    requires
        i <= 256,
    ensures
        u.product_walk(i, v.times_power(i), u.partial_product(v, i)) == u.partial_product(v, 256),
    decreases 256 - i,
{
    if i < 256 {
        lemma_product_walk(u, v, i + 1);
        assert(v.times_power(i + 1) == v.times_power(((i + 1) - 1) as nat).times_x());
        assert(u.partial_product(v, i + 1) == if u.coefficient(i) {
            u.partial_product(v, i).xor(v.times_power(i))
        } else {
            u.partial_product(v, i)
        });
    }
}

/// A jump by the product of two tables is a jump by the second and then a
/// jump by the first.
pub proof fn lemma_times(s: State, u: Table, v: Table)
    ensures
        s.jump_by(u.times(v)) == s.jump_by(v).jump_by(u),
{
    lemma_partial_product(s, u, v, 256);
    lemma_product_walk(u, v, 0);
}

/// If a jump by a table is `d` draws, a jump by its square is `2 * d`
/// draws.
pub proof fn lemma_skips_squared(q: Table, d: nat)
    requires
        skips(q, d),
    ensures
        skips(q.squared(), 2 * d),
{
    assert forall|s: State| #[trigger] s.jump_by(q.squared()) == s.advance(2 * d) by {
        lemma_times(s, q, q);
        assert(s.jump_by(q) == s.advance(d));
        assert(s.advance(d).jump_by(q) == s.advance(d).advance(d));
        lemma_advance_sum(s, d, d);
    }
}

/// Squaring `k` times doubles the distance `k` times.
pub proof fn lemma_skips_squared_times(q: Table, d: nat, k: nat)
    requires
        skips(q, d),
    ensures
        skips(q.squared_times(k), d * pow2(k)),
    decreases k,
{
    if k == 0 {
        lemma2_to64();
        assert(d * pow2(0) == d) by (nonlinear_arith)
            requires
                pow2(0) == 1,
        ;
    } else {
        let j = (k - 1) as nat;
        lemma_skips_squared_times(q, d, j);
        lemma_skips_squared(q.squared_times(j), d * pow2(j));
        lemma_pow2_unfold(k);
        assert(2 * (d * pow2(j)) == d * pow2(k)) by (nonlinear_arith)
            requires
                pow2(k) == 2 * pow2(j),
        ;
        assert(q.squared_times(k) == q.squared_times(j).squared());
    }
}

/// Each milestone, squared 64 times over, is the next milestone. This is
/// a finite computation on the tables.
proof fn lemma_milestone_squares(i: nat)
    requires
        i < 3,
    ensures
        milestone(i).squared_times(64) == milestone(i + 1),
{
    assert(milestone(0).squared_times(64) == milestone(1)) by (bit_vector);
    assert(milestone(1).squared_times(64) == milestone(2)) by (bit_vector);
    assert(milestone(2).squared_times(64) == milestone(3)) by (bit_vector);
}

/// A jump by milestone `i` is exactly `2^(64 * i)` draws.
pub proof fn lemma_milestone(i: nat)
    requires
        i <= 3,
    ensures
        skips(milestone(i), pow2(64 * i)),
    decreases i,
{
    if i == 0 {
        lemma2_to64();
        assert forall|s: State| #[trigger] s.jump_by(milestone(0)) == s.advance(pow2(0)) by {
            lemma_unit_jump(s, 1);
        }
    } else {
        let j = (i - 1) as nat;
        lemma_milestone(j);
        lemma_milestone_squares(j);
        lemma_skips_squared_times(milestone(j), pow2(64 * j), 64);
        lemma_pow2_adds(64 * j, 64);
    }
}

/// A jump by the table of `jump` is exactly 2^128 draws.
pub proof fn lemma_jump_distance(s: State)
    ensures
        s.jump_by(jump_table()) == s.advance(pow2(128)),
{
    lemma_milestone(2);
}

/// A jump by the table of `long_jump` is exactly 2^192 draws.
pub proof fn lemma_long_jump_distance(s: State)
    ensures
        s.jump_by(long_jump_table()) == s.advance(pow2(192)),
{
    lemma_milestone(3);
}

/// The two distances, written out.
pub proof fn lemma_distances()
    ensures
        pow2(128) == 0x1_0000_0000_0000_0000_0000_0000_0000_0000,
        pow2(192) == 0x1_0000_0000_0000_0000_0000_0000_0000_0000_0000_0000_0000_0000,
        pow2(192) == pow2(64) * pow2(128),
{
    lemma2_to64();
    lemma_pow2_adds(64, 64);
    lemma_pow2_adds(64, 128);
    assert(pow2(64) * pow2(64) == 0x1_0000_0000_0000_0000_0000_0000_0000_0000) by (nonlinear_arith)
        requires
            pow2(64) == 0x1_0000_0000_0000_0000,
    ;
    assert(pow2(64) * pow2(128)
        == 0x1_0000_0000_0000_0000_0000_0000_0000_0000_0000_0000_0000_0000) by (nonlinear_arith)
        requires
            pow2(64) == 0x1_0000_0000_0000_0000,
            pow2(128) == 0x1_0000_0000_0000_0000_0000_0000_0000_0000,
    ;
}

/// The stream after a jump is the stream before it from position 2^128 on:
/// value `i` after the jump is value `2^128 + i` before it.
pub proof fn lemma_jump_window(s: State, i: nat)
    ensures
        s.jump_by(jump_table()).advance(i) == s.advance(pow2(128) + i),
        s.jump_by(jump_table()).advance(i).output() == s.advance(pow2(128) + i).output(),
{
    lemma_jump_distance(s);
    lemma_advance_sum(s, pow2(128), i);
}

/// The stream after a long jump is the stream before it from position 2^192
/// on.
pub proof fn lemma_long_jump_window(s: State, i: nat)
    ensures
        s.jump_by(long_jump_table()).advance(i) == s.advance(pow2(192) + i),
        s.jump_by(long_jump_table()).advance(i).output() == s.advance(pow2(192) + i).output(),
{
    lemma_long_jump_distance(s);
    lemma_advance_sum(s, pow2(192), i);
}

/// After `k` jumps a generator stands `k * 2^128` draws ahead. So the
/// streams of generators that are 0, 1, 2, ... jumps away from one state are
/// successive windows, 2^128 values apart, of one and the same stream.
pub proof fn lemma_jumped(s: State, k: nat)
    ensures
        s.jumped(k) == s.advance(k * pow2(128)),
    decreases k,
{
    if k == 0 {
        assert(0 * pow2(128) == 0) by (nonlinear_arith);
    } else {
        let j = (k - 1) as nat;
        lemma_jumped(s, j);
        lemma_jump_distance(s.jumped(j));
        lemma_advance_sum(s, j * pow2(128), pow2(128));
        assert(j * pow2(128) + pow2(128) == k * pow2(128)) by (nonlinear_arith)
            requires
                j + 1 == k,
        ;
    }
}

/// One long jump is 2^64 jumps.
pub proof fn lemma_long_jump_is_jumps(s: State)
    ensures
        s.jump_by(long_jump_table()) == s.jumped(pow2(64)),
{
    lemma_long_jump_distance(s);
    lemma_jumped(s, pow2(64));
    lemma_distances();
}

/// Neither jump leads from a state that is not all zero to the all-zero
/// state, nor away from the all-zero state.
pub proof fn lemma_jumps_keep_nonzero(s: State)
    ensures
        s.jump_by(jump_table()).is_degenerate() == s.is_degenerate(),
        s.jump_by(long_jump_table()).is_degenerate() == s.is_degenerate(),
{
    lemma_jump_distance(s);
    lemma_long_jump_distance(s);
    lemma_advance_keeps_nonzero(s, pow2(128));
    lemma_advance_keeps_nonzero(s, pow2(192));
}

/// If a table plus one has an inverse, only the all-zero state stays where
/// it is under a jump by the table.
pub proof fn lemma_no_fixed_state(s: State, table: Table, inverse: Table)
    requires
        inverse.times(table.xor(Table::unit(0))) == Table::unit(0),
        s.jump_by(table) == s,
    ensures
        s.is_degenerate(),
{
    let one = Table::unit(0);
    lemma_unit_jump(s, 0);
    lemma_combine_table_xor(s, table, one, 256);
    lemma_state_xor(s, s, s, s);
    lemma_times(s, inverse, table.xor(one));
    lemma_combine_degenerate(inverse, 256);
}

/// A jump leads away: a generator that jumps and one that does not, both
/// started in the same state that is not all zero, are never in the same
/// state after the same number of draws. The same holds of the long jump.
pub proof fn lemma_jump_leads_away(s: State, i: nat)
    requires
        !s.is_degenerate(),
    ensures
        s.jump_by(jump_table()).advance(i) != s.advance(i),
        s.jump_by(long_jump_table()).advance(i) != s.advance(i),
{
    let t = s.advance(i);
    lemma_advance_keeps_nonzero(s, i);
    lemma_combine_advance(s, jump_table(), 256, i);
    lemma_combine_advance(s, long_jump_table(), 256, i);
    assert(jump_plus_one_inverse().times(jump_table().xor(Table::unit(0))) == Table::unit(0))
        by (bit_vector);
    assert(long_jump_plus_one_inverse().times(long_jump_table().xor(Table::unit(0))) == Table::unit(0))
        by (bit_vector);
    if t.jump_by(jump_table()) == t {
        lemma_no_fixed_state(t, jump_table(), jump_plus_one_inverse());
    }
    if t.jump_by(long_jump_table()) == t {
        lemma_no_fixed_state(t, long_jump_table(), long_jump_plus_one_inverse());
    }
}

} // verus!
