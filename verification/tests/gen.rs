use healer::gen;
use healer::gen::{ProgLenState, FAVORED_MAX_PROG_LEN, FAVORED_MIN_PROG_LEN};
use rand::rngs::SmallRng;
use rand::SeedableRng;

#[test]
fn next_prog_len() {
    let mut state = ProgLenState::new();
    assert_eq!(state.next_prog_len(), FAVORED_MIN_PROG_LEN);
    assert_eq!(state.next_prog_len(), FAVORED_MIN_PROG_LEN + 1);
    while state.next_prog_len() != FAVORED_MAX_PROG_LEN - 1 {}
    assert_eq!(state.next_prog_len(), FAVORED_MIN_PROG_LEN);
}

#[test]
fn choose_weighted() {
    let mut rng = SmallRng::from_entropy();
    let weight = [100];
    assert_eq!(gen::choose_weighted(&mut rng, &weight), 0);
    let weights = [10, 20, 100];
    for _ in 0..10 {
        let idx = gen::choose_weighted(&mut rng, &weight);
        assert!(idx < weights.len());
    }
}

#[test]
fn choose_weighted_never_picks_zero_weight() {
    let mut rng = SmallRng::seed_from_u64(7);
    let weights = [0, 5, 5, 9];
    for _ in 0..200 {
        let idx = gen::choose_weighted(&mut rng, &weights);
        assert!(idx == 1 || idx == 3);
    }
}

#[test]
fn prog_len_range_wraps_at_end() {
    let mut state = ProgLenState::new();
    state.set_prog_len_range(FAVORED_MIN_PROG_LEN, FAVORED_MIN_PROG_LEN + 2);
    assert_eq!(state.prog_len_range(), (FAVORED_MIN_PROG_LEN, FAVORED_MIN_PROG_LEN + 2));
    assert_eq!(state.next_prog_len(), FAVORED_MIN_PROG_LEN);
    assert_eq!(state.next_prog_len(), FAVORED_MIN_PROG_LEN + 1);
    assert_eq!(state.next_prog_len(), FAVORED_MIN_PROG_LEN);
}

use healer::gen::integer::{
    bitmask_choice, favor_bound, flag_value_from, inc_by, magic_at, non_bitmask_choice, top_bit_of, FlagChoice,
};

#[test]
fn integer_draws_decide_the_value() {
    assert_eq!(magic_at(0), 0);
    assert_eq!(magic_at(6), 127);
    assert_eq!(magic_at(23), 4294934527);
    assert_eq!(magic_at(24), 0);
    assert_eq!(magic_at(575), 0);
    assert_eq!(favor_bound(0), 16);
    assert_eq!(favor_bound(4), 2147483648);
    assert_eq!(top_bit_of(0xff, 8), 0x80);
    assert_eq!(top_bit_of(0x7f, 8), 0);
    assert_eq!(top_bit_of(u64::MAX, 64), 1 << 63);
    assert_eq!(flag_value_from(true, 42), 42);
    assert_eq!(flag_value_from(false, 42), 0);
    assert_eq!(inc_by(5, 3), 8);
    assert_eq!(inc_by(u64::MAX - 1, 3), u64::MAX);
}

#[test]
fn flag_choices_follow_the_draws() {
    assert_eq!(bitmask_choice(true), FlagChoice::RandomValue);
    assert_eq!(bitmask_choice(false), FlagChoice::Composition);
    assert_eq!(non_bitmask_choice(0, 7), FlagChoice::RandomValue);
    assert_eq!(non_bitmask_choice(1, 7), FlagChoice::Increment);
    assert_eq!(non_bitmask_choice(2, 0), FlagChoice::Composition);
    assert_eq!(non_bitmask_choice(3, 0), FlagChoice::OneValue);
    assert_eq!(non_bitmask_choice(97, 7), FlagChoice::OneValue);
    assert_eq!(non_bitmask_choice(98, 7), FlagChoice::Composition);
    assert_eq!(non_bitmask_choice(99, 0), FlagChoice::Composition);
}
