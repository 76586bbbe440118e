use typre::rand::{choose_multiple, mul_high_u128, mul_high_u32, mul_high_u64, Rng};

#[test]
fn seeded_draws_are_reproducible() {
    let mut a = Rng::with_seed(0xDEADBEEF);
    let mut b = Rng::with_seed(0xDEADBEEF);
    for _ in 0..100 {
        assert_eq!(a.u64(0, u64::MAX), b.u64(0, u64::MAX));
    }
}

#[test]
fn seed_round_trips() {
    let rng = Rng::with_seed(42);
    assert_eq!(rng.get_seed(), 42);
    let mut rng = Rng::new();
    rng.seed(7);
    assert_eq!(rng.get_seed(), 7);
}

#[test]
fn bounded_draws_stay_in_range() {
    let mut rng = Rng::with_seed(1);
    for _ in 0..2000 {
        let v = rng.u64(10, 20);
        assert!((10..=20).contains(&v));
        let b = rng.u8(3, 7);
        assert!((3..=7).contains(&b));
        let u = rng.usize(0, 2);
        assert!(u <= 2);
    }
}

#[test]
fn bounded_draws_look_uniform() {
    // A len that is not a power of two, so a biased reduction would favor
    // the low residues.
    let mut rng = Rng::with_seed(99);
    let mut buckets = [0u32; 10];
    let n = 20000;
    for _ in 0..n {
        let v = rng.u8(0, 9);
        buckets[v as usize] += 1;
    }
    // chi-square against the uniform distribution, 9 degrees of freedom;
    // 27.9 is far beyond the 0.1% quantile.
    let expected = n as f64 / 10.0;
    let chi2: f64 = buckets
        .iter()
        .map(|&c| {
            let d = c as f64 - expected;
            d * d / expected
        })
        .sum();
    assert!(chi2 < 27.9, "chi-square too large: {chi2}");
}

#[test]
fn mantissa_draw_is_bounded() {
    let mut rng = Rng::with_seed(5);
    for _ in 0..1000 {
        assert!(rng.unit_mantissa() < (1u64 << 52));
    }
}

#[test]
fn high_halves_match_wide_multiplication() {
    let mut rng = Rng::with_seed(3);
    for _ in 0..500 {
        let a = rng.u64(0, u64::MAX);
        let b = rng.u64(0, u64::MAX);
        assert_eq!(
            mul_high_u64(a, b),
            (((a as u128) * (b as u128)) >> 64) as u64
        );
        assert_eq!(
            mul_high_u32(a as u32, b as u32),
            ((((a as u32) as u64) * ((b as u32) as u64)) >> 32) as u32
        );
    }
    assert_eq!(mul_high_u128(1u128 << 127, 2), 1);
    assert_eq!(mul_high_u128(u128::MAX, u128::MAX), u128::MAX - 1);
    assert_eq!(mul_high_u128(u128::MAX, 1), 0);
}

#[test]
fn short_streams_come_back_whole() {
    let mut rng = Rng::with_seed(11);
    let items: Vec<String> = vec!["a".into(), "b".into(), "c".into()];
    let got = rng.choose_multiple(&items, 5);
    assert_eq!(got, items);
}

#[test]
fn reservoir_picks_distinct_members() {
    let mut rng = Rng::with_seed(12);
    let items: Vec<String> = (0..50).map(|i| format!("w{i}")).collect();
    let got = rng.choose_multiple(&items, 10);
    assert_eq!(got.len(), 10);
    for (i, a) in got.iter().enumerate() {
        assert!(items.contains(a));
        for b in got.iter().skip(i + 1) {
            assert_ne!(a, b);
        }
    }
}

#[test]
fn reservoir_inclusion_converges() {
    // Picking 2 of 4 items: each item's inclusion frequency converges to
    // one half.
    let mut rng = Rng::with_seed(13);
    let items: Vec<String> = vec!["a".into(), "b".into(), "c".into(), "d".into()];
    let trials = 4000;
    let mut hits = [0u32; 4];
    for _ in 0..trials {
        let got = rng.choose_multiple(&items, 2);
        for w in &got {
            let idx = items.iter().position(|x| x == w).unwrap();
            hits[idx] += 1;
        }
    }
    for &h in &hits {
        let f = h as f64 / trials as f64;
        assert!((0.45..0.55).contains(&f), "inclusion frequency off: {f}");
    }
}

#[test]
fn index_reservoir_is_distinct_and_in_range() {
    let mut rng = Rng::with_seed(14);
    let got = rng.choose_multiple_indices(100, 7);
    assert_eq!(got.len(), 7);
    for (i, a) in got.iter().enumerate() {
        assert!(*a < 100);
        for b in got.iter().skip(i + 1) {
            assert_ne!(a, b);
        }
    }
    assert_eq!(rng.choose_multiple_indices(3, 10), vec![0, 1, 2]);
}

#[test]
fn free_function_matches_method() {
    let items: Vec<String> = (0..20).map(|i| format!("w{i}")).collect();
    let mut a = Rng::with_seed(21);
    let mut b = Rng::with_seed(21);
    assert_eq!(choose_multiple(&mut a, &items, 5), b.choose_multiple(&items, 5));
}
