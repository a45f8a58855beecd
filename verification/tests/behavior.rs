use embtk_rotary_encoder::RotaryEncoder;

#[test]
fn stationary_samples_yield_zero_and_keep_offset() {
    let mut enc: RotaryEncoder<i8> = RotaryEncoder::new(4, 10);
    assert_eq!(enc.get_delta(2, 1), 0);
    for ts in 2..10 {
        assert_eq!(enc.get_delta(2, ts), 0);
    }
    // The sub-division offset survived the stationary samples.
    assert_eq!(enc.get_delta(4, 9), 1);
}

#[test]
fn unit_divisor_returns_wrapped_difference() {
    let mut enc: RotaryEncoder<u8> = RotaryEncoder::new(1, 10);
    assert_eq!(enc.get_delta(5, 1), 5);
    assert_eq!(enc.get_delta(3, 2), -2);
    assert_eq!(enc.get_delta(250, 3), -9);
}

#[test]
fn five_unit_steps_per_division() {
    let mut enc: RotaryEncoder<i8> = RotaryEncoder::new(5, 10);
    assert_eq!(enc.get_delta(1, 1), 0);
    assert_eq!(enc.get_delta(2, 1), 0);
    assert_eq!(enc.get_delta(3, 1), 0);
    assert_eq!(enc.get_delta(4, 1), 0);
    assert_eq!(enc.get_delta(5, 1), 1);
}

#[test]
fn five_unit_steps_per_division_down() {
    let mut enc: RotaryEncoder<i8> = RotaryEncoder::new(5, 10);
    assert_eq!(enc.get_delta(-1, 1), 0);
    assert_eq!(enc.get_delta(-2, 1), 0);
    assert_eq!(enc.get_delta(-3, 1), 0);
    assert_eq!(enc.get_delta(-4, 1), 0);
    assert_eq!(enc.get_delta(-5, 1), -1);
}

#[test]
fn wraparound_u16() {
    let mut enc: RotaryEncoder<u16> = RotaryEncoder::new(1, 10);
    assert_eq!(enc.get_delta(65535, 1), -1);
    assert_eq!(enc.get_delta(0, 2), 1);
}

#[test]
fn divisions_of_four_u16() {
    let mut enc: RotaryEncoder<u16> = RotaryEncoder::new(4, 10);
    assert_eq!(enc.get_delta(65534, 1), 0);
    assert_eq!(enc.get_delta(65532, 2), -1);
    assert_eq!(enc.get_delta(65530, 3), 0);
    // Too late: the gap since the last movement exceeds the timeout, so the
    // held position is re-referenced and no division is reported.
    assert_eq!(enc.get_delta(65528, 20), 0);
}

#[test]
fn gap_equal_to_timeout_is_not_stale() {
    let mut enc: RotaryEncoder<i8> = RotaryEncoder::new(4, 10);
    assert_eq!(enc.get_delta(2, 1), 0);
    // Exactly at the limit: offset is kept.
    assert_eq!(enc.get_delta(3, 11), 0);
    assert_eq!(enc.get_delta(4, 12), 1);
}

#[test]
fn timeout_discards_fractional_offset() {
    let mut enc: RotaryEncoder<i8> = RotaryEncoder::new(4, 10);
    assert_eq!(enc.get_delta(3, 1), 0);
    // Past the timeout with the position held: the offset of 3 is dropped.
    assert_eq!(enc.get_delta(3, 50), 0);
    // Movement is now measured from the held position 3, not from 0.
    assert_eq!(enc.get_delta(6, 51), 0);
    assert_eq!(enc.get_delta(7, 52), 1);
}

#[test]
fn movement_resets_staleness_clock_and_stationary_does_not() {
    let mut enc: RotaryEncoder<i8> = RotaryEncoder::new(4, 10);
    assert_eq!(enc.get_delta(2, 1), 0);
    // Stationary sample inside the window does not refresh the clock.
    assert_eq!(enc.get_delta(2, 9), 0);
    // 20 is past 1 + 10, so the offset of 2 is discarded.
    assert_eq!(enc.get_delta(2, 20), 0);
    assert_eq!(enc.get_delta(5, 21), 0);
    assert_eq!(enc.get_delta(6, 22), 1);
}

#[test]
fn huge_timeout_never_goes_stale() {
    let mut enc: RotaryEncoder<i8> = RotaryEncoder::new(1, u32::MAX);
    assert_eq!(enc.get_delta(1, u32::MAX), 1);
    assert_eq!(enc.get_delta(2, 5), 1);
}

#[test]
fn unit_divisor_i16() {
    let mut enc: RotaryEncoder<i16> = RotaryEncoder::new(1, 10);
    assert_eq!(enc.get_delta(5, 1), 5);
    assert_eq!(enc.get_delta(-32768, 2), -5);
}

#[test]
fn unit_divisor_u32() {
    let mut enc: RotaryEncoder<u32> = RotaryEncoder::new(1, 10);
    assert_eq!(enc.get_delta(4294967295, 1), -1);
    assert_eq!(enc.get_delta(2, 2), 3);
}

#[test]
fn unit_divisor_i32_rollover() {
    let mut enc: RotaryEncoder<i32> = RotaryEncoder::new(1, 10);
    assert_eq!(enc.get_delta(2147483647, 1), -1);
    assert_eq!(enc.get_delta(-2147483648, 2), 1);
}
