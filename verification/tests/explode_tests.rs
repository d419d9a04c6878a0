use meowmic::explode::{select_effect, DelayLine, ExplodeEffect, NoiseSource};

#[test]
fn effects_by_number() {
    assert_eq!(ExplodeEffect::from_u32(0), ExplodeEffect::Classic);
    assert_eq!(ExplodeEffect::from_u32(1), ExplodeEffect::Electric);
    assert_eq!(ExplodeEffect::from_u32(2), ExplodeEffect::Distortion);
    assert_eq!(ExplodeEffect::from_u32(3), ExplodeEffect::WhiteNoise);
    assert_eq!(ExplodeEffect::from_u32(4), ExplodeEffect::Robot);
    assert_eq!(ExplodeEffect::from_u32(5), ExplodeEffect::Demon);
}

#[test]
fn unknown_numbers_select_classic() {
    assert_eq!(ExplodeEffect::from_u32(6), ExplodeEffect::Classic);
    assert_eq!(ExplodeEffect::from_u32(u32::MAX), ExplodeEffect::Classic);
}

#[test]
fn effect_numbers_round_trip() {
    for n in 0..6u32 {
        assert_eq!(ExplodeEffect::from_u32(n).to_u32(), n);
    }
    assert_eq!(ExplodeEffect::from_u32(42).to_u32(), 0);
    assert_eq!(ExplodeEffect::Demon.to_u32(), 5);
}

#[test]
fn disabled_mode_selects_no_effect() {
    assert_eq!(select_effect(false, 3), None);
    assert_eq!(select_effect(true, 3), Some(ExplodeEffect::WhiteNoise));
    assert_eq!(select_effect(true, 9), Some(ExplodeEffect::Classic));
}

#[test]
fn noise_sequence_from_the_fixed_seed() {
    let mut n = NoiseSource::new();
    assert_eq!(n.next_bits(), 21468);
    assert_eq!(n.next_bits(), 9988);
    assert_eq!(n.next_bits(), 22117);
}

#[test]
fn noise_bits_stay_below_2_pow_15() {
    let mut n = NoiseSource::new();
    for _ in 0..10000 {
        assert!(n.next_bits() < 0x8000);
    }
}

#[test]
fn echo_returns_the_value_written_delay_writes_ago() {
    let mut d: DelayLine<i32> = DelayLine::new(4, 0);
    d.write(10);
    d.write(20);
    d.write(30);
    assert_eq!(d.read(3), 10);
    assert_eq!(d.read(1), 30);
    assert_eq!(d.read(4), 0);
    d.write(40);
    d.write(50);
    assert_eq!(d.read(4), 20);
    assert_eq!(d.read(1), 50);
    assert_eq!(d.len(), 4);
}
