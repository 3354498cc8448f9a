use prng64::Prng64;

const FIRST_TEN: [u64; 10] = [
    41943041,
    58720359,
    3588806011781223,
    3591011842654386,
    9228616714210784205,
    9973669472204895162,
    14011001112246962877,
    12406186145184390807,
    15849039046786891736,
    10450023813501588000,
];

#[test]
fn first_output_and_next_state_from_one_two_three_four() {
    let mut g = Prng64::new([1, 2, 3, 4]);
    assert_eq!(g.next(), 41943041);
    assert_eq!(g.state(), [7, 0, 262146, 211106232532992]);
}

#[test]
fn first_ten_outputs_from_one_two_three_four() {
    let mut g = Prng64::new([1, 2, 3, 4]);
    for expected in FIRST_TEN {
        assert_eq!(g.next(), expected);
    }
    assert_eq!(
        g.state(),
        [
            6918773752402764499,
            4636616456744993510,
            602415824082698274,
            4336610201886040825
        ]
    );
}

#[test]
fn new_stores_the_seed_verbatim() {
    let g = Prng64::new([0x0123456789abcdef, 0xfedcba9876543210, 0, u64::MAX]);
    assert_eq!(g.state(), [0x0123456789abcdef, 0xfedcba9876543210, 0, u64::MAX]);
}

#[test]
fn outputs_from_a_seed_with_high_bits() {
    let mut g = Prng64::new([
        0x0123456789abcdef,
        0xfedcba9876543210,
        0xdeadbeefcafef00d,
        0x08badf00d0ddba11,
    ]);
    assert_eq!(g.next(), 3841722401745321217);
    assert_eq!(g.next(), 15943599941578287261);
    assert_eq!(g.next(), 9091260366874582189);
    assert_eq!(
        g.state(),
        [
            15625885311085426181,
            4928473125264642367,
            15371480772537951937,
            13625930916342312533
        ]
    );
}

#[test]
fn additions_wrap_on_the_all_ones_seed() {
    let mut g = Prng64::new([u64::MAX; 4]);
    assert_eq!(g.next(), 18446744073701163006);
    assert_eq!(g.next(), 18446744073709551614);
    assert_eq!(g.next(), 18446744073709551615);
    assert_eq!(g.state(), [131071, 131071, 17179869183, 4611650834055299072]);
}

#[test]
fn identically_seeded_generators_agree() {
    let seed = [0x9e3779b97f4a7c15, 0xbf58476d1ce4e5b9, 0x94d049bb133111eb, 1];
    let mut a = Prng64::new(seed);
    let mut b = Prng64::new(seed);
    for _ in 0..5000 {
        assert_eq!(a.next(), b.next());
    }
    assert_eq!(a.state(), b.state());
}

#[test]
fn all_zero_seed_yields_zero_forever() {
    let mut g = Prng64::new([0, 0, 0, 0]);
    for _ in 0..1000 {
        assert_eq!(g.next(), 0);
        assert_eq!(g.state(), [0, 0, 0, 0]);
    }
}

#[test]
fn nonzero_seed_never_reaches_the_all_zero_state() {
    let mut g = Prng64::new([0, 0, 0, 1]);
    for _ in 0..5000 {
        g.next();
        assert_ne!(g.state(), [0, 0, 0, 0]);
    }
}

#[test]
fn reseeding_discards_history() {
    let mut used = Prng64::new([11, 22, 33, 44]);
    for _ in 0..137 {
        used.next();
    }
    used.jump();
    used.seed([1, 2, 3, 4]);
    assert_eq!(used.state(), [1, 2, 3, 4]);

    let mut fresh = Prng64::new([1, 2, 3, 4]);
    for expected in FIRST_TEN {
        assert_eq!(used.next(), expected);
        assert_eq!(fresh.next(), expected);
    }
    assert_eq!(used.state(), fresh.state());
}

#[test]
fn reseeding_two_different_pasts_gives_one_future() {
    let mut a = Prng64::new([5, 6, 7, 8]);
    let mut b = Prng64::new([u64::MAX, 0, u64::MAX, 0]);
    a.next();
    b.long_jump();
    a.seed([42, 0, 0, 0]);
    b.seed([42, 0, 0, 0]);
    for _ in 0..100 {
        assert_eq!(a.next(), b.next());
    }
}

#[test]
fn take_agrees_with_direct_draws() {
    let mut pulled = Prng64::new([1, 2, 3, 4]);
    let mut direct = Prng64::new([1, 2, 3, 4]);
    let items = pulled.take(10);
    assert_eq!(items, FIRST_TEN.to_vec());
    for item in items {
        assert_eq!(item, direct.next());
    }
    assert_eq!(pulled.state(), direct.state());
}

#[test]
fn take_continues_where_the_last_draw_stopped() {
    let mut g = Prng64::new([1, 2, 3, 4]);
    assert_eq!(g.take(4), FIRST_TEN[..4].to_vec());
    assert_eq!(g.next(), FIRST_TEN[4]);
    assert_eq!(g.take(5), FIRST_TEN[5..].to_vec());
}

#[test]
fn take_of_nothing_leaves_the_state() {
    let mut g = Prng64::new([1, 2, 3, 4]);
    assert_eq!(g.take(0), Vec::<u64>::new());
    assert_eq!(g.state(), [1, 2, 3, 4]);
}

#[test]
fn pull_agrees_with_direct_draws() {
    let mut pulled = Prng64::new([9, 8, 7, 6]);
    let mut direct = Prng64::new([9, 8, 7, 6]);
    for _ in 0..1000 {
        assert_eq!(pulled.pull(), Some(direct.next()));
    }
    assert_eq!(pulled.state(), direct.state());
}

#[test]
fn pull_yields_the_known_stream() {
    let mut g = Prng64::new([1, 2, 3, 4]);
    for expected in FIRST_TEN {
        assert_eq!(g.pull(), Some(expected));
    }
}
