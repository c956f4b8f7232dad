use ripple_board::decimal::decimal;
use ripple_board::quantizer::{quantize, truncate, DisplaySymbol};

#[test]
fn just_below_one_shows_the_placeholder() {
    let symbol = quantize(0.999f64.to_bits());
    assert_eq!(symbol, DisplaySymbol::Placeholder);
    assert_eq!(symbol.text(), "0");
}

#[test]
fn just_above_minus_one_shows_the_placeholder() {
    let symbol = quantize((-0.999f64).to_bits());
    assert_eq!(symbol, DisplaySymbol::Placeholder);
    assert_eq!(symbol.text(), "0");
}

#[test]
fn one_shows_as_one() {
    let symbol = quantize(1.0f64.to_bits());
    assert_eq!(symbol, DisplaySymbol::Number(1));
    assert_eq!(symbol.text(), "1");
}

#[test]
fn minus_one_and_a_half_shows_as_minus_one() {
    let symbol = quantize((-1.5f64).to_bits());
    assert_eq!(symbol, DisplaySymbol::Number(-1));
    assert_eq!(symbol.text(), "-1");
}

#[test]
fn zero_of_either_sign_shows_the_placeholder() {
    assert_eq!(quantize(0.0f64.to_bits()), DisplaySymbol::Placeholder);
    assert_eq!(quantize((-0.0f64).to_bits()), DisplaySymbol::Placeholder);
    assert_eq!(truncate(0), 0);
    assert_eq!(truncate(0x8000_0000_0000_0000), 0);
}

#[test]
fn truncation_cuts_toward_zero() {
    assert_eq!(truncate(12.58f64.to_bits()), 12);
    assert_eq!(truncate((-12.58f64).to_bits()), -12);
    assert_eq!(truncate(1.9999999f64.to_bits()), 1);
    assert_eq!(truncate((-1.9999999f64).to_bits()), -1);
    assert_eq!(truncate(2.0f64.to_bits()), 2);
    assert_eq!(truncate(99.5f64.to_bits()), 99);
    assert_eq!(truncate(316.2277f64.to_bits()), 316);
    assert_eq!(truncate(123456789.987f64.to_bits()), 123456789);
}

#[test]
fn truncation_stops_at_the_ends_of_the_range() {
    assert_eq!(truncate(2147483647.0f64.to_bits()), i32::MAX);
    assert_eq!(truncate(2147483646.5f64.to_bits()), 2147483646);
    assert_eq!(truncate(2147483647.5f64.to_bits()), i32::MAX);
    assert_eq!(truncate(2147483648.0f64.to_bits()), i32::MAX);
    assert_eq!(truncate(1e300f64.to_bits()), i32::MAX);
    assert_eq!(truncate(f64::MAX.to_bits()), i32::MAX);
    assert_eq!(truncate(f64::INFINITY.to_bits()), i32::MAX);
    assert_eq!(truncate((-2147483648.0f64).to_bits()), i32::MIN);
    assert_eq!(truncate((-2147483647.5f64).to_bits()), -2147483647);
    assert_eq!(truncate((-2147483648.5f64).to_bits()), i32::MIN);
    assert_eq!(truncate((-2147483649.0f64).to_bits()), i32::MIN);
    assert_eq!(truncate((-1e300f64).to_bits()), i32::MIN);
    assert_eq!(truncate(f64::NEG_INFINITY.to_bits()), i32::MIN);
}

#[test]
fn what_is_not_a_number_truncates_to_zero() {
    assert_eq!(truncate(f64::NAN.to_bits()), 0);
    assert_eq!(truncate(0x7ff0_0000_0000_0001), 0);
    assert_eq!(truncate(0xfff8_0000_0000_0000), 0);
    assert_eq!(quantize(f64::NAN.to_bits()), DisplaySymbol::Placeholder);
}

#[test]
fn tiny_values_truncate_to_zero() {
    assert_eq!(truncate(f64::MIN_POSITIVE.to_bits()), 0);
    assert_eq!(truncate(1), 0);
    assert_eq!(truncate(0x000f_ffff_ffff_ffff), 0);
    assert_eq!(truncate(0x800f_ffff_ffff_ffff), 0);
    assert_eq!(truncate(1e-300f64.to_bits()), 0);
    assert_eq!(truncate(0.5f64.to_bits()), 0);
}

#[test]
fn truncation_agrees_with_the_cast_on_many_bit_patterns() {
    let mut state: u64 = 0x2545_f491_4f6c_dd1d;
    for _ in 0..200_000 {
        state ^= state << 13;
        state ^= state >> 7;
        state ^= state << 17;
        assert_eq!(truncate(state), f64::from_bits(state) as i32);
    }
}

#[test]
fn truncation_agrees_with_the_cast_on_displayable_values() {
    let mut state: u64 = 0x9e37_79b9_7f4a_7c15;
    for _ in 0..200_000 {
        state ^= state << 13;
        state ^= state >> 7;
        state ^= state << 17;
        let value = ((state >> 11) as f64 / (1u64 << 53) as f64 - 0.5) * 4000.0;
        assert_eq!(truncate(value.to_bits()), value as i32);
        let symbol = quantize(value.to_bits());
        if value as i32 == 0 {
            assert_eq!(symbol, DisplaySymbol::Placeholder);
        } else {
            assert_eq!(symbol, DisplaySymbol::Number(value as i32));
            assert_eq!(symbol.text(), (value as i32).to_string());
        }
    }
}

#[test]
fn decimal_text_of_small_numbers() {
    assert_eq!(decimal(0), "0");
    assert_eq!(decimal(7), "7");
    assert_eq!(decimal(-7), "-7");
    assert_eq!(decimal(10), "10");
    assert_eq!(decimal(-10), "-10");
    assert_eq!(decimal(12), "12");
    assert_eq!(decimal(316), "316");
    assert_eq!(decimal(-1005), "-1005");
}

#[test]
fn decimal_text_of_the_ends_of_the_range() {
    assert_eq!(decimal(i32::MAX), "2147483647");
    assert_eq!(decimal(i32::MIN), "-2147483648");
    assert_eq!(decimal(i32::MIN + 1), "-2147483647");
}

#[test]
fn decimal_text_agrees_with_to_string() {
    let mut state: u64 = 0x1234_5678_9abc_def1;
    for _ in 0..100_000 {
        state ^= state << 13;
        state ^= state >> 7;
        state ^= state << 17;
        let v = (state >> 32) as u32 as i32;
        assert_eq!(decimal(v), v.to_string());
        let small = v % 1000;
        assert_eq!(decimal(small), small.to_string());
    }
}

#[test]
fn number_symbols_show_their_value() {
    assert_eq!(DisplaySymbol::Number(42).text(), "42");
    assert_eq!(DisplaySymbol::Number(-42).text(), "-42");
    assert_eq!(DisplaySymbol::Placeholder.text(), "0");
}
