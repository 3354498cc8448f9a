//! What holds of every stream: it is determined by the state it starts at,
//! drawing one value at a time gives the same values as indexing into it,
//! and the all-zero state is the one state to avoid.

use vstd::prelude::*;
use crate::state::State;

verus! {

/// Stepping first and then advancing `n` times reaches the same state as
/// advancing `n` times and then stepping.
pub proof fn lemma_step_then_advance(s: State, n: nat)
    ensures
        s.step().advance(n) == s.advance(n).step(),
        s.step().advance(n) == s.advance(n + 1),
    decreases n,
{
    if n > 0 {
        lemma_step_then_advance(s, (n - 1) as nat);
    }
    assert(s.advance(n + 1) == s.advance(((n + 1) - 1) as nat).step());
}

/// Advancing `a` times and then `b` times is advancing `a + b` times.
pub proof fn lemma_advance_sum(s: State, a: nat, b: nat)
    ensures
        s.advance(a).advance(b) == s.advance(a + b),
    decreases b,
{
    if b > 0 {
        lemma_advance_sum(s, a, (b - 1) as nat);
    }
}

/// Two generators seeded with the same words yield the same stream, however
/// long, and stay in step with each other.
pub proof fn lemma_same_seed_same_stream(seed: Seq<u64>, a: State, b: State, n: nat)
    requires
        a == State::from_words(seed),
        b == State::from_words(seed),
    ensures
        a.outputs(n) == b.outputs(n),
        a.drawn(n) == b.drawn(n),
        a.advance(n) == b.advance(n),
{
}

/// After reseeding, the stream depends on the new seed alone: two generators
/// with different pasts that are reseeded with the same words yield the same
/// stream from then on.
pub proof fn lemma_reseed_forgets_history(past_a: State, past_b: State, seed: Seq<u64>, n: nat)
    ensures
        past_a.reseeded(seed) == State::from_words(seed),
        past_a.reseeded(seed) == past_b.reseeded(seed),
        past_a.reseeded(seed).outputs(n) == past_b.reseeded(seed).outputs(n),
        past_a.reseeded(seed).advance(n) == past_b.reseeded(seed).advance(n),
{
}

/// Drawing `n` values one at a time yields exactly the first `n` values of
/// the stream, in the same order.
pub proof fn lemma_drawn_is_outputs(s: State, n: nat)
    ensures
        s.drawn(n) == s.outputs(n),
    decreases n,
{
    if n > 0 {
        let m = (n - 1) as nat;
        lemma_drawn_is_outputs(s.step(), m);
        assert forall|i: int| 0 <= i < n implies #[trigger] s.drawn(n)[i] == s.outputs(n)[i] by {
            if i > 0 {
                lemma_step_then_advance(s, (i - 1) as nat);
                assert(s.step().outputs(m)[i - 1] == s.step().advance((i - 1) as nat).output());
            }
        }
    }
    assert(s.drawn(n) =~= s.outputs(n));
}

/// A stream can be cut anywhere: its first `a + b` values are its first `a`
/// values followed by the first `b` values of the stream that starts `a`
/// draws later.
pub proof fn lemma_outputs_split(s: State, a: nat, b: nat)
    ensures
        s.outputs(a + b) == s.outputs(a) + s.advance(a).outputs(b),
{
    assert forall|i: int| 0 <= i < a + b implies #[trigger] s.outputs(a + b)[i] == (s.outputs(a)
        + s.advance(a).outputs(b))[i] by {
        if i >= a {
            lemma_advance_sum(s, a, (i - a) as nat);
        }
    }
    assert(s.outputs(a + b) =~= s.outputs(a) + s.advance(a).outputs(b));
}

/// The all-zero state is a fixed point of the step, and its output is zero.
pub proof fn lemma_degenerate_step()
    ensures
        State::zero().step() == State::zero(),
        State::zero().output() == 0,
{
    assert(0u64 ^ (0u64 ^ 0u64) == 0u64 && (0u64 ^ 0u64) ^ (0u64 << 17) == 0u64 && ((0u64 ^ 0u64)
        << 45) | ((0u64 ^ 0u64) >> 19) == 0u64 && (0u64 << 23) | (0u64 >> 41) == 0u64)
        by (bit_vector);
}

/// A generator in the all-zero state stays there, whatever is drawn.
pub proof fn lemma_degenerate_forever(n: nat)
    ensures
        State::zero().advance(n) == State::zero(),
        State::zero().advance(n).output() == 0,
    decreases n,
{
    lemma_degenerate_step();
    if n > 0 {
        lemma_degenerate_forever((n - 1) as nat);
    }
}

/// A generator in the all-zero state yields zero forever.
pub proof fn lemma_degenerate_stream(n: nat)
    ensures
        forall|i: int| 0 <= i < n ==> #[trigger] State::zero().outputs(n)[i] == 0,
        forall|i: int| 0 <= i < n ==> #[trigger] State::zero().drawn(n)[i] == 0,
{
    lemma_drawn_is_outputs(State::zero(), n);
    assert forall|i: int| 0 <= i < n implies #[trigger] State::zero().outputs(n)[i] == 0 by {
        lemma_degenerate_forever(i as nat);
    }
}

/// Only the all-zero state steps to the all-zero state.
pub proof fn lemma_step_keeps_nonzero(s: State)
    ensures
        s.step().is_degenerate() == s.is_degenerate(),
{
    let (a, b, c, d) = (s.s0, s.s1, s.s2, s.s3);
    assert((a ^ (d ^ b) == 0 && b ^ (c ^ a) == 0 && (c ^ a) ^ (b << 17) == 0 && ((d ^ b) << 45) | ((
    d ^ b) >> 19) == 0) ==> (a == 0 && b == 0 && c == 0 && d == 0)) by (bit_vector);
    lemma_degenerate_step();
}

/// A generator seeded with a state that is not all zero never reaches the
/// all-zero state by drawing, and one seeded with the all-zero state never
/// leaves it.
pub proof fn lemma_advance_keeps_nonzero(s: State, n: nat)
    ensures
        s.advance(n).is_degenerate() == s.is_degenerate(),
    decreases n,
{
    if n > 0 {
        lemma_advance_keeps_nonzero(s, (n - 1) as nat);
        lemma_step_keeps_nonzero(s.advance((n - 1) as nat));
    }
}

} // verus!
