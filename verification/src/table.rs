//! Coefficient tables. A table holds 256 coefficients, each 0 or 1, in four
//! words; coefficient `i` says whether the state `i` draws ahead takes part
//! in a jump. Read as a polynomial in `x` over the two-element field, with
//! `x` standing for one draw, a table of degree below 256 names a linear
//! combination of the next 256 states.

use vstd::prelude::*;

verus! {

/// The coefficient table with which `jump` skips 2^128 draws.
pub const JUMP: [u64; 4] = [
    0x180ec6d33cfd0aba,
    0xd5a61266f0c9392c,
    0xa9582618e03fc9aa,
    0x39abdc4529b1661c,
];

/// The coefficient table with which `long_jump` skips 2^192 draws.
pub const LONG_JUMP: [u64; 4] = [
    0x76e15d3efefdcbbf,
    0xc5004e441c522fb3,
    0x77710069854ee241,
    0x39109bb02acbe635,
];

/// Whether bit `b` of the word `c` is set, for `b < 64`.
pub open spec fn bit(c: u64, b: nat) -> bool
    recommends
        b < 64,
{
    c & (1u64 << b) != 0
}

/// Four words of coefficients, the least significant bit of `w0` first.
pub struct Table {
    pub w0: u64,
    pub w1: u64,
    pub w2: u64,
    pub w3: u64,
}

impl Table {
    /// The table whose words are `w[0]`, `w[1]`, `w[2]`, `w[3]`.
    pub open spec fn from_words(w: Seq<u64>) -> Table
        recommends
            w.len() == 4,
    {
        Table { w0: w[0], w1: w[1], w2: w[2], w3: w[3] }
    }

    /// Word `k` of the table, for `k < 4`.
    pub open spec fn word(self, k: nat) -> u64
        recommends
            k < 4,
    {
        if k == 0 {
            self.w0
        } else if k == 1 {
            self.w1
        } else if k == 2 {
            self.w2
        } else {
            self.w3
        }
    }

    /// Coefficient `i`, for `i < 256`: bit `i % 64` of word `i / 64`.
    pub open spec fn coefficient(self, i: nat) -> bool
        recommends
            i < 256,
    {
        bit(self.word(i / 64), i % 64)
    }

    /// The table without a coefficient.
    pub open spec fn zero() -> Table {
        Table { w0: 0, w1: 0, w2: 0, w3: 0 }
    }

    /// The table whose only coefficient is `m`, for `m < 256`.
    pub open spec fn unit(m: nat) -> Table
        recommends
            m < 256,
    {
        Table {
            w0: if m / 64 == 0 { 1u64 << (m % 64) } else { 0 },
            w1: if m / 64 == 1 { 1u64 << (m % 64) } else { 0 },
            w2: if m / 64 == 2 { 1u64 << (m % 64) } else { 0 },
            w3: if m / 64 == 3 { 1u64 << (m % 64) } else { 0 },
        }
    }

    /// The table that holds a coefficient where exactly one of the two does.
    pub open spec fn xor(self, other: Table) -> Table {
        Table {
            w0: self.w0 ^ other.w0,
            w1: self.w1 ^ other.w1,
            w2: self.w2 ^ other.w2,
            w3: self.w3 ^ other.w3,
        }
    }

    /// The table with every coefficient moved one place up; coefficient 255
    /// falls out and coefficient 0 becomes free.
    pub open spec fn shifted(self) -> Table {
        Table {
            w0: self.w0 << 1,
            w1: (self.w1 << 1) | (self.w0 >> 63),
            w2: (self.w2 << 1) | (self.w1 >> 63),
            w3: (self.w3 << 1) | (self.w2 >> 63),
        }
    }
}

/// The table of `jump`.
pub open spec fn jump_table() -> Table {
    Table {
        w0: 0x180ec6d33cfd0aba,
        w1: 0xd5a61266f0c9392c,
        w2: 0xa9582618e03fc9aa,
        w3: 0x39abdc4529b1661c,
    }
}

/// The table of `long_jump`.
pub open spec fn long_jump_table() -> Table {
    Table {
        w0: 0x76e15d3efefdcbbf,
        w1: 0xc5004e441c522fb3,
        w2: 0x77710069854ee241,
        w3: 0x39109bb02acbe635,
    }
}

/// The two constant tables hold the words of `jump_table` and
/// `long_jump_table`.
pub proof fn lemma_constant_tables()
    ensures
        Table::from_words(JUMP@) == jump_table(),
        Table::from_words(LONG_JUMP@) == long_jump_table(),
{
}

/// Of two single-bit words, one has the other's bit set exactly when the two
/// bits are the same; the zero word has no bit set.
proof fn lemma_single_bit(k: u64, b: u64)
    by (bit_vector)
    requires
        k < 64,
        b < 64,
    ensures
        ((1u64 << k) & (1u64 << b) != 0) <==> k == b,
        0u64 & (1u64 << b) == 0,
{
}

/// The unit table of `m` holds coefficient `m` and no other.
pub proof fn lemma_unit_coefficient(m: nat, i: nat)
    requires
        m < 256,
        i < 256,
    ensures
        Table::unit(m).coefficient(i) <==> i == m,
{
    lemma_single_bit((m % 64) as u64, (i % 64) as u64);
}

/// The empty table holds no coefficient.
pub proof fn lemma_zero_coefficient(i: nat)
    requires
        i < 256,
    ensures
        !Table::zero().coefficient(i),
{
    lemma_single_bit(0, (i % 64) as u64);
}

/// A bit of the exclusive or of two words is set exactly when it is set in
/// one of them and not in the other.
proof fn lemma_bit_xor(a: u64, c: u64, b: u64)
    by (bit_vector)
    requires
        b < 64,
    ensures
        ((a ^ c) & (1u64 << b) != 0) == ((a & (1u64 << b) != 0) != (c & (1u64 << b) != 0)),
{
}

/// The exclusive or of two tables holds a coefficient exactly when one of
/// them holds it and the other does not.
pub proof fn lemma_xor_coefficient(p: Table, q: Table, i: nat)
    requires
        i < 256,
    ensures
        p.xor(q).coefficient(i) == (p.coefficient(i) != q.coefficient(i)),
{
    lemma_bit_xor(p.word(i / 64), q.word(i / 64), (i % 64) as u64);
}

/// Shifting a word up by one and filling bit 0 from the top of the word
/// below moves every bit one place up.
proof fn lemma_bit_shifted(hi: u64, lo: u64, b: u64, below: u64)
    by (bit_vector)
    requires
        b < 64,
        below + 1 == b,
    ensures
        (((hi << 1) | (lo >> 63)) & (1u64 << b) != 0) == (hi & (1u64 << below) != 0),
        ((hi << 1) & (1u64 << b) != 0) == (hi & (1u64 << below) != 0),
{
}

/// Bit 0 of a word shifted up by one and filled from the word below is the
/// top bit of the word below; without a word below it is not set.
proof fn lemma_bit_carried(hi: u64, lo: u64)
    by (bit_vector)
    ensures
        (((hi << 1) | (lo >> 63)) & (1u64 << 0) != 0) == (lo & (1u64 << 63) != 0),
        (hi << 1) & (1u64 << 0) == 0,
{
}

/// Coefficient `i` of the shifted table is coefficient `i - 1` of the
/// table, and the shifted table has no coefficient 0.
pub proof fn lemma_shifted_coefficient(p: Table, i: nat)
    requires
        i < 256,
    ensures
        p.shifted().coefficient(i) == (i > 0 && p.coefficient((i - 1) as nat)),
{
    let k = i / 64;
    let b = i % 64;
    if b > 0 {
        let lo = if k == 0 { 0u64 } else { p.word((k - 1) as nat) };
        lemma_bit_shifted(p.word(k), lo, b as u64, (b - 1) as u64);
        assert((i - 1) / 64 == k && (i - 1) % 64 == b - 1);
    } else if k > 0 {
        lemma_bit_carried(p.word(k), p.word((k - 1) as nat));
        assert((i - 1) / 64 == k - 1 && (i - 1) % 64 == 63);
    } else {
        lemma_bit_carried(p.w0, 0);
    }
}

} // verus!
