use embtk_rotary_encoder::RotaryEncoder;

#[test]
fn zero() {
    let mut enc = RotaryEncoder::new(1i8, 10u32);
    assert_eq!(enc.get_delta(0, 1), 0);
}

#[test]
fn increment() {
    let mut enc = RotaryEncoder::new(1i8, 10u32);
    assert_eq!(enc.get_delta(1, 1), 1);
}

#[test]
fn decrement() {
    let mut enc = RotaryEncoder::new(1i8, 10u32);
    assert_eq!(enc.get_delta(-1, 1), -1);
}

#[test]
fn rollover_up() {
    let mut enc = RotaryEncoder::new(1i8, 10u32);

    assert_eq!(enc.get_delta(127, 1), 127);
    assert_eq!(enc.get_delta(-128, 1), 1);
}

#[test]
fn rollover_down() {
    let mut enc = RotaryEncoder::new(1i8, 10u32);

    assert_eq!(enc.get_delta(-128, 1), -128);
    assert_eq!(enc.get_delta(127, 1), -1);
}

#[test]
fn all_the_way_up() {
    let mut enc = RotaryEncoder::new(1i8, 10u32);

    for p in 1..512 {
        assert_eq!(enc.get_delta((p % 256) as i8, 1), 1);
    }
}

#[test]
fn all_the_way_down() {
    let mut enc = RotaryEncoder::new(1i8, 10u32);

    for p in -1..-512 {
        assert_eq!(enc.get_delta((p % 256) as i8, 1), 1);
    }
}

#[test]
fn increment_4divs() {
    let mut enc = RotaryEncoder::new(4i8, 10u32);

    assert_eq!(enc.get_delta(1, 1), 0);
    assert_eq!(enc.get_delta(2, 1), 0);
    assert_eq!(enc.get_delta(3, 1), 0);
    assert_eq!(enc.get_delta(4, 1), 1);
}

#[test]
fn decrement_4divs() {
    let mut enc = RotaryEncoder::new(4i8, 10u32);
    assert_eq!(enc.get_delta(-1, 1), 0);
    assert_eq!(enc.get_delta(-2, 1), 0);
    assert_eq!(enc.get_delta(-3, 1), 0);
    assert_eq!(enc.get_delta(-4, 1), -1);
}

#[test]
fn rollover_up_4divs() {
    let mut enc = RotaryEncoder::new(4i8, 10u32);

    assert_eq!(enc.get_delta(124, 1), 31);
    assert_eq!(enc.get_delta(127, 1), 0);
    assert_eq!(enc.get_delta(-128, 1), 1);
    assert_eq!(enc.get_delta(-127, 1), 0);
    assert_eq!(enc.get_delta(-126, 1), 0);
    assert_eq!(enc.get_delta(-125, 1), 0);
    assert_eq!(enc.get_delta(-124, 1), 1);
}

#[test]
fn rollover_down_4divs() {
    let mut enc = RotaryEncoder::new(4i8, 10u32);

    assert_eq!(enc.get_delta(-128, 1), -32);
    assert_eq!(enc.get_delta(127, 1), 0);
    assert_eq!(enc.get_delta(126, 1), 0);
    assert_eq!(enc.get_delta(125, 1), 0);
    assert_eq!(enc.get_delta(124, 1), -1);
}

#[test]
fn all_the_way_up_4divs() {
    let mut enc = RotaryEncoder::new(4i8, 10u32);

    for p in 1..512 {
        assert_eq!(enc.get_delta((p % 256) as i8, 1), if p % 4 == 0 { 1 } else { 0 });
    }
}

#[test]
fn all_the_way_down_4divs() {
    let mut enc = RotaryEncoder::new(4i8, 10u32);

    for p in -1..-512 {
        assert_eq!(enc.get_delta((p % 256) as i8, 1), if p % 4 == 0 { -1 } else { 0 });
    }
}

#[test]
fn zero_unsigned() {
    let mut enc: RotaryEncoder<u8> = RotaryEncoder::new(1i8, 10u32);
    assert_eq!(enc.get_delta(0, 1), 0);
}

#[test]
fn increment_unsigned() {
    let mut enc: RotaryEncoder<u8> = RotaryEncoder::new(1i8, 10u32);
    assert_eq!(enc.get_delta(1, 1), 1);
}

#[test]
fn decrement_unsigned() {
    let mut enc: RotaryEncoder<u8> = RotaryEncoder::new(1i8, 10u32);
    assert_eq!(enc.get_delta(255, 1), -1);
}

#[test]
fn rollover_up_unsigned() {
    let mut enc: RotaryEncoder<u8> = RotaryEncoder::new(1i8, 10u32);

    assert_eq!(enc.get_delta(127, 1), 127);
    assert_eq!(enc.get_delta(128, 1), 1);
    assert_eq!(enc.get_delta(255, 1), 127);
    assert_eq!(enc.get_delta(0, 1), 1);
}

#[test]
fn rollover_down_unsigned() {
    let mut enc: RotaryEncoder<u8> = RotaryEncoder::new(1i8, 10u32);

    assert_eq!(enc.get_delta(255, 1), -1);
}

#[test]
fn all_the_way_up_unsigned() {
    let mut enc: RotaryEncoder<u8> = RotaryEncoder::new(1i8, 10u32);

    for p in 1..512 {
        assert_eq!(enc.get_delta((p % 256) as u8, 1), 1);
    }
}

#[test]
fn all_the_way_down_unsigned() {
    let mut enc: RotaryEncoder<u8> = RotaryEncoder::new(1i8, 10u32);

    for p in -1..-512 {
        assert_eq!(enc.get_delta((p % 256) as u8, 1), 1);
    }
}

#[test]
fn increment_4divs_unsigned() {
    let mut enc: RotaryEncoder<u8> = RotaryEncoder::new(4i8, 10u32);

    assert_eq!(enc.get_delta(1, 1), 0);
    assert_eq!(enc.get_delta(2, 1), 0);
    assert_eq!(enc.get_delta(3, 1), 0);
    assert_eq!(enc.get_delta(4, 1), 1);
}

#[test]
fn decrement_4divs_unsigned() {
    let mut enc: RotaryEncoder<u8> = RotaryEncoder::new(4i8, 10u32);
    assert_eq!(enc.get_delta(255, 1), 0);
    assert_eq!(enc.get_delta(254, 1), 0);
    assert_eq!(enc.get_delta(253, 1), 0);
    assert_eq!(enc.get_delta(252, 1), -1);
}

#[test]
fn rollover_up_4divs_unsigned() {
    let mut enc: RotaryEncoder<u8> = RotaryEncoder::new(4i8, 10u32);

    assert_eq!(enc.get_delta(127, 1), 31);
    assert_eq!(enc.get_delta(128, 1), 1);
    assert_eq!(enc.get_delta(252, 1), 31);
    assert_eq!(enc.get_delta(253, 1), 0);
    assert_eq!(enc.get_delta(254, 1), 0);
    assert_eq!(enc.get_delta(255, 1), 0);
    assert_eq!(enc.get_delta(0, 1), 1);
    assert_eq!(enc.get_delta(1, 1), 0);
    assert_eq!(enc.get_delta(2, 1), 0);
    assert_eq!(enc.get_delta(3, 1), 0);
    assert_eq!(enc.get_delta(4, 1), 1);
}

#[test]
fn rollover_down_4divs_unsigned() {
    let mut enc: RotaryEncoder<u8> = RotaryEncoder::new(4i8, 10u32);

    assert_eq!(enc.get_delta(255, 1), 0);
    assert_eq!(enc.get_delta(254, 1), 0);
    assert_eq!(enc.get_delta(253, 1), 0);
    assert_eq!(enc.get_delta(252, 1), -1);
}

#[test]
fn all_the_way_up_4divs_unsigned() {
    let mut enc: RotaryEncoder<u8> = RotaryEncoder::new(4i8, 10u32);

    for p in 1..512 {
        assert_eq!(enc.get_delta((p % 256) as u8, 1), if p % 4 == 0 { 1 } else { 0 });
    }
}

#[test]
fn all_the_way_down_4divs_unsigned() {
    let mut enc: RotaryEncoder<u8> = RotaryEncoder::new(4i8, 10u32);

    for p in -1..-512 {
        assert_eq!(enc.get_delta((p % 256) as u8, 1), if p % 4 == 0 { -1 } else { 0 });
    }
}
