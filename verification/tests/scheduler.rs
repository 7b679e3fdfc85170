use vocab_review::scheduler::{
    super_memo_2, SuperMemoItem, DEFAULT_EASE, MAX_QUALITY, MIN_EASE, PASSING_QUALITY,
};

fn item(repetition: u32, duration: u32, ease_factor: u64) -> SuperMemoItem {
    SuperMemoItem { repetition, duration, ease_factor }
}

#[test]
fn first_review_schedules_one_day() {
    assert_eq!(super_memo_2(item(0, 0, 2_500_000), 400), item(1, 1, 2_500_000));
}

#[test]
fn second_review_schedules_six_days() {
    assert_eq!(super_memo_2(item(1, 6, 2_500_000), 400), item(2, 6, 2_500_000));
    assert_eq!(super_memo_2(item(1, 1, 2_500_000), 300), item(2, 6, 2_500_000));
}

#[test]
fn perfect_recall_raises_ease_and_stretches_interval() {
    let after = super_memo_2(item(2, 6, 2_500_000), 500);
    assert!(after.ease_factor > 2_500_000);
    assert_eq!(after.ease_factor, 2_600_000);
    // ceil(6 * 2.6) = ceil(15.6)
    assert_eq!(after.duration, 16);
    assert_eq!(after.repetition, 3);
}

#[test]
fn lapse_restarts_at_any_repetition() {
    for repetition in [0u32, 1, 2, 3, 17, u32::MAX] {
        assert_eq!(super_memo_2(item(repetition, 40, 2_100_000), 200), item(1, 1, 2_100_000));
    }
    assert_eq!(super_memo_2(item(5, 40, 2_100_000), 0), item(1, 1, 2_100_000));
    assert_eq!(
        super_memo_2(item(5, 40, 2_100_000), PASSING_QUALITY - 1),
        item(1, 1, 2_100_000)
    );
}

#[test]
fn ease_moves_by_the_sm2_formula() {
    // q = 4: 0.1 - 1 * (0.08 + 1 * 0.02) = 0
    assert_eq!(super_memo_2(item(2, 6, 2_500_000), 400).ease_factor, 2_500_000);
    // q = 3: 0.1 - 2 * (0.08 + 2 * 0.02) = -0.14
    assert_eq!(super_memo_2(item(2, 6, 2_500_000), 300).ease_factor, 2_360_000);
    // q = 4.5: 0.1 - 0.5 * (0.08 + 0.5 * 0.02) = 0.055
    assert_eq!(super_memo_2(item(2, 6, 2_500_000), 450).ease_factor, 2_555_000);
    // q = 3.25: 0.1 - 1.75 * (0.08 + 1.75 * 0.02) = -0.10125
    assert_eq!(super_memo_2(item(2, 6, 2_500_000), 325).ease_factor, 2_398_750);
}

#[test]
fn rating_above_the_scale_goes_through_the_formula() {
    // q = 6: 0.1 - (-1) * (0.08 + (-1) * 0.02) = 0.16
    assert_eq!(super_memo_2(item(2, 6, 2_500_000), 600), item(3, 16, 2_660_000));
    assert_eq!(super_memo_2(item(0, 6, 2_500_000), 600), item(1, 1, 2_500_000));
    // q = 45: 0.1 - (-40) * (0.08 + (-40) * 0.02) = -28.7
    assert_eq!(super_memo_2(item(2, 6, 2_500_000), 4_500).ease_factor, MIN_EASE);
    assert_eq!(super_memo_2(item(2, 6, 2_500_000), u32::MAX).ease_factor, MIN_EASE);
}

#[test]
fn interval_is_rounded_up() {
    // ceil(6 * 2.36) = ceil(14.16)
    assert_eq!(super_memo_2(item(2, 6, 2_500_000), 300).duration, 15);
    // an exact product is not rounded further: 10 * 2.5 = 25
    assert_eq!(super_memo_2(item(3, 10, 2_500_000), 400).duration, 25);
    // ceil(1 * 1.3) = 2
    assert_eq!(super_memo_2(item(2, 1, MIN_EASE), 300).duration, 2);
    assert_eq!(super_memo_2(item(2, 0, 2_500_000), 500).duration, 0);
}

#[test]
fn ease_never_drops_below_the_floor() {
    let mut state = item(2, 6, DEFAULT_EASE);
    for _ in 0..50 {
        state = super_memo_2(state, PASSING_QUALITY);
        assert!(state.ease_factor >= MIN_EASE);
    }
    assert_eq!(state.ease_factor, MIN_EASE);
    let mut state = item(0, 0, DEFAULT_EASE);
    for round in 0..200u32 {
        state = super_memo_2(state, (round * 37) % (MAX_QUALITY + 1));
        assert!(state.ease_factor >= MIN_EASE);
    }
}

#[test]
fn floor_is_reached_from_just_above() {
    assert_eq!(super_memo_2(item(4, 9, 1_350_000), 300).ease_factor, MIN_EASE);
    assert_eq!(super_memo_2(item(4, 9, 1_440_000), 300).ease_factor, MIN_EASE);
    assert_eq!(super_memo_2(item(4, 9, 1_440_001), 300).ease_factor, 1_300_001);
}

#[test]
fn interval_never_shrinks_past_the_learning_steps() {
    let mut state = item(2, 6, DEFAULT_EASE);
    for round in 0..40u32 {
        let before = state.duration;
        state = super_memo_2(state, 300 + (round * 53) % 201);
        assert!(state.duration >= before);
    }
}

#[test]
fn counters_stop_at_their_limits() {
    let after = super_memo_2(item(u32::MAX, u32::MAX, 2_500_000), 500);
    assert_eq!(after.repetition, u32::MAX);
    assert_eq!(after.duration, u32::MAX);
    let after = super_memo_2(item(7, 3_000_000_000, 2_000_000), 400);
    assert_eq!(after.duration, u32::MAX);
    let after = super_memo_2(item(7, 1, u64::MAX), 500);
    assert_eq!(after.ease_factor, u64::MAX);
}

fn ease(value: f64) -> u64 {
    (value * 1_000_000.0).round() as u64
}

fn quality(value: f64) -> u32 {
    (value * 100.0).round() as u32
}

#[test]
fn scenarios_in_decimal_notation() {
    assert_eq!(super_memo_2(item(0, 0, ease(2.5)), quality(4.0)), item(1, 1, ease(2.5)));
    assert_eq!(super_memo_2(item(1, 6, ease(2.5)), quality(4.0)), item(2, 6, ease(2.5)));
    let after = super_memo_2(item(2, 6, ease(2.5)), quality(5.0));
    assert!(after.ease_factor > ease(2.5));
    assert_eq!(after.duration, (6.0 * (after.ease_factor as f64 / 1_000_000.0)).ceil() as u32);
    for repetition in 0..6 {
        assert_eq!(
            super_memo_2(item(repetition, 9, ease(1.7)), quality(2.0)),
            item(1, 1, ease(1.7))
        );
    }
}

#[test]
fn scaled_arithmetic_agrees_with_the_decimal_formula() {
    for start in [1.3, 1.31, 1.5, 2.0, 2.36, 2.5, 3.9] {
        for hundredths in 300..=500u32 {
            let q = hundredths as f64 / 100.0;
            let expected = (start + (0.1 - (5.0 - q) * (0.08 + (5.0 - q) * 0.02))).max(1.3);
            let after = super_memo_2(item(2, 10, ease(start)), hundredths);
            let got = after.ease_factor as f64 / 1_000_000.0;
            assert!((got - expected).abs() < 1e-9, "ease {} rated {}", start, q);
            // the interval is the least number of days that is no less than 10 * ease
            let product = 10 * after.ease_factor as u128;
            let days = after.duration as u128 * 1_000_000;
            assert!(days >= product && days < product + 1_000_000);
        }
    }
}
