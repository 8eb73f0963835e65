use kinematic::random::{random, split_mix64, Random};

fn unit_f32(random: &mut Random) -> f32 {
    random.unit_numerator_24() as f32 * (1.0 / (1_u32 << 24) as f32)
}

fn unit_f64(random: &mut Random) -> f64 {
    random.unit_numerator_53() as f64 * (1.0 / (1_u64 << 53) as f64)
}

fn range_f64(random: &mut Random, range: std::ops::Range<f64>) -> f64 {
    let width = range.end - range.start;
    assert!(
        range.start.is_finite() && range.end.is_finite() && width.is_finite() && range.start < range.end,
        "Random ranges must be finite and non-empty."
    );
    range.start + width * unit_f64(random)
}

fn choose_weighted<'a, T>(random: &mut Random, values: &'a [T], weights: &[f64]) -> Option<&'a T> {
    if values.is_empty() || values.len() != weights.len() {
        return None;
    }
    let mut total = 0.0;
    for weight in weights {
        if !(weight.is_finite() && *weight >= 0.0) {
            return None;
        }
        total += weight;
    }
    if !total.is_finite() || total <= 0.0 {
        return None;
    }
    let mut target = range_f64(random, 0.0..total);
    let mut last_positive = None;
    for (value, weight) in values.iter().zip(weights) {
        if *weight > 0.0 {
            last_positive = Some(value);
        }
        if target < *weight {
            return Some(value);
        }
        target -= weight;
    }
    last_positive
}

#[test]
fn equal_seeds_produce_equal_values() {
    let mut first = Random::new(42);
    let mut second = Random::new(42);
    assert_eq!((first.u64(), first.u128()), (second.u64(), second.u128()));
    assert_eq!(
        (unit_f32(&mut first), unit_f64(&mut first)),
        (unit_f32(&mut second), unit_f64(&mut second))
    );
}

#[test]
fn algorithm_sequence_is_stable() {
    let mut random = Random::new(42);
    assert_eq!(
        [random.u64(), random.u64(), random.u64()],
        [
            15_021_278_609_987_233_951,
            5_881_210_131_331_364_753,
            18_149_643_915_985_481_100,
        ]
    );
}

#[test]
fn forks_ignore_consumed_parent_state() {
    let parent = Random::new(12);
    let mut consumed = parent.clone();
    for _ in 0..100 {
        consumed.u64();
    }
    assert_eq!(parent.fork(7).u64(), consumed.fork(7).u64());
    assert_ne!(parent.fork(7).u64(), parent.fork(8).u64());
    assert_eq!(parent.fork(7).u64(), 12_454_396_449_278_183_096);
}

#[test]
fn ranges_stay_within_their_bounds() {
    let mut random = Random::new(9);
    for _ in 0..1_000 {
        assert!((10..20).contains(&random.range_u32(10..20)));
        assert!((-20..-10).contains(&random.range_i64(-20..-10)));
        assert!((0.25..0.75).contains(&range_f64(&mut random, 0.25..0.75)));
    }
}

#[test]
fn chooses_and_mutates_values() {
    let mut random = Random::new(4);
    let values = [10, 20, 30, 40];
    assert!(values.contains(random.choose_one(&values).unwrap()));
    let chosen = random.choose_multiple(&values, 3);
    assert_eq!(chosen.len(), 3);
    assert_ne!(chosen[0], chosen[1]);

    let mut mutable = values;
    *random.choose_mut(&mut mutable).unwrap() = 99;
    assert!(mutable.contains(&99));
    assert_eq!(
        choose_weighted(&mut random, &values, &[0.0, 0.0, 1.0, 0.0]),
        Some(&30)
    );
}

#[test]
fn shuffle_is_deterministic_and_preserves_values() {
    let mut first = [1, 2, 3, 4, 5, 6];
    let mut second = first;
    Random::new(81).shuffle(&mut first);
    Random::new(81).shuffle(&mut second);
    assert_eq!(first, second);
    first.sort();
    assert_eq!(first, [1, 2, 3, 4, 5, 6]);
}

#[test]
fn split_mix_advances_by_the_golden_gamma() {
    let mut state = 0;
    let value = split_mix64(&mut state);
    assert_eq!(state, 0x9e37_79b9_7f4a_7c15);
    assert_eq!(value, 0xe220_a839_7b1d_cdaf);
}

#[test]
fn default_generator_uses_seed_zero() {
    let mut zero = random();
    let mut explicit = Random::new(0);
    for _ in 0..8 {
        assert_eq!(zero.u64(), explicit.u64());
    }
}

#[test]
fn narrow_integers_truncate_the_next_word() {
    let mut words = Random::new(5);
    let first = words.u64();
    let second = words.u64();
    let third = words.u64();
    let fourth = words.u64();
    let fifth = words.u64();

    let mut narrow = Random::new(5);
    assert_eq!(narrow.u8(), first as u8);
    assert_eq!(narrow.i16(), second as u16 as i16);
    assert_eq!(narrow.bool(), third & 1 == 1);
    assert_eq!(narrow.i64(), fourth as i64);
    assert_eq!(narrow.usize(), fifth as usize);
}

#[test]
fn wide_integers_take_the_first_word_as_the_high_half() {
    let mut words = Random::new(77);
    let high = words.u64();
    let low = words.u64();
    let mut wide = Random::new(77);
    assert_eq!(wide.u128(), ((high as u128) << 64) | low as u128);
    let mut signed = Random::new(77);
    assert_eq!(signed.i128(), (((high as u128) << 64) | low as u128) as i128);
}

#[test]
fn unit_numerators_keep_the_top_bits() {
    let mut words = Random::new(3);
    let first = words.u64();
    let second = words.u64();
    let mut units = Random::new(3);
    assert_eq!(units.unit_numerator_24(), (first >> 40) as u32);
    assert_eq!(units.unit_numerator_53(), second >> 11);
    assert!(unit_f64(&mut units) < 1.0);
}

#[test]
fn signed_ranges_cover_negative_bounds() {
    let mut random = Random::new(11);
    for _ in 0..1_000 {
        let value = random.range_i32(-3..2);
        assert!((-3..2).contains(&value));
        let wide = random.range_i64(i64::MIN..i64::MAX);
        assert!(wide < i64::MAX);
        let small = random.range_usize(4..5);
        assert_eq!(small, 4);
        let big = random.range_u64(0..u64::MAX);
        assert!(big < u64::MAX);
    }
}

#[test]
fn empty_slices_choose_nothing_without_drawing() {
    let mut random = Random::new(1);
    let mut reference = Random::new(1);
    let empty: [u8; 0] = [];
    assert!(random.choose_one(&empty).is_none());
    let mut empty_mut: [u8; 0] = [];
    assert!(random.choose_mut(&mut empty_mut).is_none());
    assert_eq!(random.u64(), reference.u64());
}

#[test]
fn choose_multiple_caps_the_amount_and_never_repeats() {
    let mut random = Random::new(21);
    let values = [1, 2, 3, 4, 5];
    let chosen = random.choose_multiple(&values, 10);
    assert_eq!(chosen.len(), 5);
    let mut sorted: Vec<i32> = chosen.iter().map(|value| **value).collect();
    sorted.sort();
    assert_eq!(sorted, vec![1, 2, 3, 4, 5]);
}

#[test]
fn equal_seeds_agree_over_mixed_call_sequences() {
    let mut first = Random::new(7);
    let mut second = Random::new(7);
    let mut left = vec![1, 2, 3, 4, 5, 6];
    let mut right = left.clone();
    first.shuffle(&mut left);
    second.shuffle(&mut right);
    assert_eq!(left, right);
    assert_eq!(first.range_i32(-5..9), second.range_i32(-5..9));
    let items = [10, 20, 30, 40];
    assert_eq!(first.choose_multiple(&items, 3), second.choose_multiple(&items, 3));
    assert_eq!((first.i128(), first.bool()), (second.i128(), second.bool()));
    assert_eq!(first.choose_one(&items), second.choose_one(&items));
    assert_eq!(first.u64(), second.u64());
}
