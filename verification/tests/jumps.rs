use prng64::table::{JUMP, LONG_JUMP};
use prng64::Prng64;

fn advanced(seed: [u64; 4], n: usize) -> [u64; 4] {
    let mut g = Prng64::new(seed);
    for _ in 0..n {
        g.next();
    }
    g.state()
}

fn xor(a: [u64; 4], b: [u64; 4]) -> [u64; 4] {
    [a[0] ^ b[0], a[1] ^ b[1], a[2] ^ b[2], a[3] ^ b[3]]
}

#[test]
fn jump_tables_hold_the_published_constants() {
    assert_eq!(
        JUMP,
        [
            0x180ec6d33cfd0aba,
            0xd5a61266f0c9392c,
            0xa9582618e03fc9aa,
            0x39abdc4529b1661c
        ]
    );
    assert_eq!(
        LONG_JUMP,
        [
            0x76e15d3efefdcbbf,
            0xc5004e441c522fb3,
            0x77710069854ee241,
            0x39109bb02acbe635
        ]
    );
}

#[test]
fn jump_from_one_two_three_four() {
    let mut g = Prng64::new([1, 2, 3, 4]);
    g.jump();
    assert_eq!(
        g.state(),
        [
            0x8c7a153956b5f3d1,
            0x701f1a713401d85e,
            0x6527f66a65469085,
            0x8386b786c4408050
        ]
    );
    assert_eq!(g.next(), 17043750140134683703);
    assert_eq!(g.next(), 2364973248208838314);
    assert_eq!(g.next(), 13951431646535487319);
    assert_eq!(g.next(), 8066193832155293345);
}

#[test]
fn long_jump_from_one_two_three_four() {
    let mut g = Prng64::new([1, 2, 3, 4]);
    g.long_jump();
    assert_eq!(
        g.state(),
        [
            0x096a8eb71295a400,
            0xdbf84991e50f4516,
            0x534ee745810d2a0e,
            0x31655ca1a2215bf1
        ]
    );
    assert_eq!(g.next(), 13097851138432240629);
    assert_eq!(g.next(), 5869259491745178931);
    assert_eq!(g.next(), 2145365994275058833);
    assert_eq!(g.next(), 16694938170147227233);
}

#[test]
fn jump_and_long_jump_differ() {
    let mut a = Prng64::new([1, 2, 3, 4]);
    let mut b = Prng64::new([1, 2, 3, 4]);
    a.jump();
    b.long_jump();
    assert_ne!(a.state(), b.state());
}

#[test]
fn jump_with_is_what_jump_and_long_jump_do() {
    let mut a = Prng64::new([1, 2, 3, 4]);
    let mut b = Prng64::new([1, 2, 3, 4]);
    a.jump();
    b.jump_with(JUMP);
    assert_eq!(a.state(), b.state());

    let mut a = Prng64::new([1, 2, 3, 4]);
    let mut b = Prng64::new([1, 2, 3, 4]);
    a.long_jump();
    b.jump_with(LONG_JUMP);
    assert_eq!(a.state(), b.state());
}

#[test]
fn single_coefficient_jump_is_that_many_draws() {
    let mut g = Prng64::new([1, 2, 3, 4]);
    g.jump_with([1 << 5, 0, 0, 0]);
    assert_eq!(
        g.state(),
        [
            9250551998855381762,
            105553519575810,
            9228034086416548613,
            4611932360672346753
        ]
    );
    assert_eq!(g.state(), advanced([1, 2, 3, 4], 5));
}

#[test]
fn single_coefficient_jump_in_every_word() {
    let seed = [0x243f6a8885a308d3, 0x13198a2e03707344, 0xa4093822299f31d0, 0x082efa98ec4e6c89];
    for m in [0usize, 1, 63, 64, 65, 127, 128, 135, 191, 192, 255] {
        let mut table = [0u64; 4];
        table[m / 64] = 1 << (m % 64);
        let mut g = Prng64::new(seed);
        g.jump_with(table);
        assert_eq!(g.state(), advanced(seed, m));
    }
}

#[test]
fn two_coefficient_jump_is_the_xor_of_two_distances() {
    let mut g = Prng64::new([1, 2, 3, 4]);
    g.jump_with([0b101, 0, 0, 0]);
    assert_eq!(g.state(), [211106232532998, 262151, 262150, 402653188]);
    assert_eq!(g.state(), xor([1, 2, 3, 4], advanced([1, 2, 3, 4], 2)));
}

#[test]
fn empty_table_jumps_to_the_all_zero_state() {
    let mut g = Prng64::new([1, 2, 3, 4]);
    g.jump_with([0, 0, 0, 0]);
    assert_eq!(g.state(), [0, 0, 0, 0]);
}

#[test]
fn jump_of_the_all_zero_state_is_all_zero() {
    let mut g = Prng64::new([0, 0, 0, 0]);
    g.jump();
    assert_eq!(g.state(), [0, 0, 0, 0]);
    g.long_jump();
    assert_eq!(g.state(), [0, 0, 0, 0]);
}

#[test]
fn jump_commutes_with_drawing() {
    let seed = [1, 2, 3, 4];
    for k in [1usize, 2, 17, 300] {
        let mut a = Prng64::new(advanced(seed, k));
        a.jump();
        let mut b = Prng64::new(seed);
        b.jump();
        assert_eq!(a.state(), advanced(b.state(), k));
    }
}

#[test]
fn jump_and_long_jump_commute() {
    let mut a = Prng64::new([1, 2, 3, 4]);
    a.jump();
    a.long_jump();
    let mut b = Prng64::new([1, 2, 3, 4]);
    b.long_jump();
    b.jump();
    assert_eq!(a.state(), b.state());
}

#[test]
fn jump_is_linear() {
    let p = [0x243f6a8885a308d3, 0x13198a2e03707344, 0xa4093822299f31d0, 0x082efa98ec4e6c89];
    let q = [1, 2, 3, 4];
    let mut a = Prng64::new(p);
    let mut b = Prng64::new(q);
    let mut c = Prng64::new(xor(p, q));
    a.jump();
    b.jump();
    c.jump();
    assert_eq!(c.state(), xor(a.state(), b.state()));
}

#[test]
fn outputs_after_a_jump_differ_from_outputs_before() {
    let mut here = Prng64::new([1, 2, 3, 4]);
    let mut there = Prng64::new([1, 2, 3, 4]);
    there.jump();
    for _ in 0..10_000 {
        assert_ne!(here.next(), there.next());
    }
}

#[test]
fn outputs_after_a_long_jump_differ_from_outputs_before() {
    let mut here = Prng64::new([1, 2, 3, 4]);
    let mut there = Prng64::new([1, 2, 3, 4]);
    there.long_jump();
    for _ in 0..10_000 {
        assert_ne!(here.next(), there.next());
    }
}

#[test]
fn streams_of_successive_jumps_do_not_share_a_prefix() {
    let mut base = Prng64::new([1, 2, 3, 4]);
    let mut starts = Vec::new();
    for _ in 0..8 {
        starts.push(base.state());
        base.jump();
    }
    for i in 0..starts.len() {
        for j in 0..i {
            let a = Prng64::new(starts[i]).take(16);
            let b = Prng64::new(starts[j]).take(16);
            assert_ne!(a, b);
        }
    }
}

#[test]
fn recurrence_table_jump_is_256_draws() {
    let reduction = [
        0x9d116f2bb0f0f001,
        0x0280002bcefd1a5e,
        0x04b4edcf26259f85,
        0x0003c03c3f3ecb19,
    ];
    let mut g = Prng64::new([1, 2, 3, 4]);
    g.jump_with(reduction);
    assert_eq!(
        g.state(),
        [
            8234345546515367945,
            11318505498045031953,
            1599109029821590652,
            10917834480555527884
        ]
    );
    for seed in [
        [1, 2, 3, 4],
        [1, 0, 0, 0],
        [0, 0, 0, 1 << 63],
        [u64::MAX; 4],
        [0x243f6a8885a308d3, 0x13198a2e03707344, 0xa4093822299f31d0, 0x082efa98ec4e6c89],
    ] {
        let mut g = Prng64::new(seed);
        g.jump_with(reduction);
        assert_eq!(g.state(), advanced(seed, 256));
    }
}

#[test]
fn jump_by_sixteen_squarings_is_65536_draws() {
    let mut g = Prng64::new([1, 2, 3, 4]);
    g.jump_with([
        0x7e89ac5ca2fbf2c7,
        0x92ae7ca370c0bf6b,
        0xef43beaa06f02fb8,
        0xd87f8ce230817a21,
    ]);
    assert_eq!(
        g.state(),
        [
            16235649412138593607,
            13989208405828630333,
            11564205359475795554,
            7221816219555221473
        ]
    );
    assert_eq!(g.state(), advanced([1, 2, 3, 4], 1 << 16));
}

#[test]
fn jump_by_twenty_squarings_is_1048576_draws() {
    let mut g = Prng64::new([1, 2, 3, 4]);
    g.jump_with([
        0x31d9d05c5d95f3cd,
        0x7cde241817a3ce0f,
        0x2f679f694a74c76a,
        0x8b3919a9d298a415,
    ]);
    assert_eq!(
        g.state(),
        [
            720086690843307743,
            15007785991526476975,
            11791631832944805429,
            9713315676210266125
        ]
    );
    assert_eq!(g.state(), advanced([1, 2, 3, 4], 1 << 20));
}

#[test]
fn jumps_keep_a_nonzero_state_nonzero() {
    let mut g = Prng64::new([0, 0, 0, 1]);
    for _ in 0..50 {
        g.jump();
        assert_ne!(g.state(), [0, 0, 0, 0]);
        g.long_jump();
        assert_ne!(g.state(), [0, 0, 0, 0]);
    }
}

#[test]
fn a_jumped_generator_is_never_where_the_other_is() {
    let mut here = Prng64::new([1, 2, 3, 4]);
    let mut jumped = Prng64::new([1, 2, 3, 4]);
    let mut long_jumped = Prng64::new([1, 2, 3, 4]);
    jumped.jump();
    long_jumped.long_jump();
    for _ in 0..2000 {
        assert_ne!(here.state(), jumped.state());
        assert_ne!(here.state(), long_jumped.state());
        assert_ne!(jumped.state(), long_jumped.state());
        here.next();
        jumped.next();
        long_jumped.next();
    }
}
