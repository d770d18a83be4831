use ir_decoder::decoder::timings::{decode_bit, decode_value, is_timing_valid, TimingsError};

#[test]
fn valid_timing_with_multiplier_one() {
    assert_eq!(is_timing_valid(480, 1), true);
}

#[test]
fn valid_timing_with_multiplier_three() {
    assert_eq!(is_timing_valid(1440, 3), true);
}

#[test]
fn minimum_accepteble_timing() {
    assert_eq!(is_timing_valid(1080, 3), true);
}

#[test]
fn maximum_accepteble_timing() {
    assert_eq!(is_timing_valid(1800, 3), true);
}

#[test]
fn zero_multiplier() {
    assert_eq!(is_timing_valid(480, 0), false);
}

#[test]
fn timing_less_then_minimum() {
    assert_eq!(is_timing_valid(1079, 3), false);
}

#[test]
fn timing_more_then_maximum() {
    assert_eq!(is_timing_valid(1801, 3), false);
}

#[test]
fn valid_bit_0() {
    assert_eq!(decode_bit::<u8>(480, 480).unwrap(), 0);
}

#[test]
fn valid_bit_1() {
    assert_eq!(decode_bit::<u8>(480, 1440).unwrap(), 1);
}

#[test]
fn invalid_timing_on() {
    assert_eq!(
        decode_bit::<u8>(359, 480).unwrap_err(),
        TimingsError::AbnormalLedOnBitValue(359)
    );
}

#[test]
fn invalid_timing_off() {
    assert_eq!(
        decode_bit::<u8>(480, 700).unwrap_err(),
        TimingsError::AbnormalLedOffBitValue(700)
    );
}

#[test]
fn valid_8bit_value() {
    let timings: [u32; 16] = [
        402, 550, 467, 524, 489, 491, 580, 392, 454, 1700, 440, 1607, 475, 534, 501, 591,
    ];

    assert_eq!(decode_value::<u8>(&timings, 8).unwrap(), 12);
}

#[test]
fn valid_16bit_value() {
    let timings: [u32; 32] = [
        402, 550, 467, 524, 489, 491, 580, 392, 454, 1700, 440, 1607, 475, 534, 501, 591,
        498, 443, 364, 574, 477, 591, 394, 1412, 452, 511, 382, 423, 448, 494, 539, 507,
    ];

    assert_eq!(decode_value::<u16>(&timings, 16).unwrap(), 3088);
}

#[test]
fn invalid_timings_len() {
    let timings: [u32; 15] = [
        402, 550, 467, 524, 489, 491, 580, 392, 454, 1700, 440, 1607, 475, 534, 501,
    ];

    assert_eq!(
        decode_value::<u8>(&timings, 8).unwrap_err(),
        TimingsError::WrongTimingsNumber(16, 15)
    );
}

#[test]
fn invalid_on_timing() {
    let timings: [u32; 16] = [
        402, 550, 467, 524, 489, 491, 580, 392, 454, 1700, 440, 1607, 475, 534, 601, 591,
    ];

    assert_eq!(
        decode_value::<u8>(&timings, 8).unwrap_err(),
        TimingsError::AbnormalLedOnBitValue(601)
    );
}

#[test]
fn invalid_off_timing() {
    let timings: [u32; 16] = [
        402, 550, 467, 524, 489, 491, 580, 392, 454, 1700, 440, 1607, 475, 634, 501, 591,
    ];

    assert_eq!(
        decode_value::<u8>(&timings, 8).unwrap_err(),
        TimingsError::AbnormalLedOffBitValue(634)
    );
}

fn pulse_pairs(value: u128, bits: usize) -> Vec<u32> {
    let mut timings = Vec::new();
    for index in 0..bits {
        let position = bits - 1 - index;
        timings.push(480);
        if (value >> position) & 1 == 1 {
            timings.push(1440);
        } else {
            timings.push(480);
        }
    }
    timings
}

#[test]
fn window_ends_for_several_multipliers() {
    for multiplier in [1u32, 2, 3, 8, 18, 100, 357_913, 357_914, 1_000_000, 7_158_278] {
        let low = 360 * multiplier;
        let high = 600 * multiplier;
        assert!(is_timing_valid(low, multiplier), "{low} for {multiplier}");
        assert!(is_timing_valid(high, multiplier), "{high} for {multiplier}");
        assert!(is_timing_valid(480 * multiplier, multiplier));
        assert!(!is_timing_valid(low - 1, multiplier), "{} for {multiplier}", low - 1);
        assert!(!is_timing_valid(high + 1, multiplier), "{} for {multiplier}", high + 1);
    }
}

#[test]
fn window_of_the_preamble_and_of_a_bit() {
    assert!(is_timing_valid(6480, 18));
    assert!(!is_timing_valid(6479, 18));
    assert!(is_timing_valid(10800, 18));
    assert!(!is_timing_valid(10801, 18));
    assert!(is_timing_valid(2880, 8));
    assert!(!is_timing_valid(2879, 8));
    assert!(is_timing_valid(4800, 8));
    assert!(!is_timing_valid(4801, 8));
    assert!(is_timing_valid(360, 1));
    assert!(!is_timing_valid(359, 1));
    assert!(is_timing_valid(600, 1));
    assert!(!is_timing_valid(601, 1));
}

#[test]
fn zero_multiplier_accepts_nothing() {
    for timing in [0u32, 1, 360, 480, 600, u32::MAX] {
        assert!(!is_timing_valid(timing, 0));
    }
}

#[test]
fn window_beyond_the_largest_duration() {
    // 360 * 8_947_849 = 3_221_225_640 and 600 * 8_947_849 is more than any duration
    assert!(is_timing_valid(u32::MAX, 8_947_849));
    assert!(is_timing_valid(3_221_225_640, 8_947_849));
    assert!(!is_timing_valid(3_221_225_639, 8_947_849));
    // 360 * 11_930_465 = 4_294_967_400 is more than any duration
    assert!(!is_timing_valid(u32::MAX, 11_930_465));
    assert!(!is_timing_valid(u32::MAX, u32::MAX));
    assert!(!is_timing_valid(0, u32::MAX));
}

#[test]
fn bit_at_the_ends_of_the_windows() {
    assert_eq!(decode_bit::<u8>(360, 360).unwrap(), 0);
    assert_eq!(decode_bit::<u8>(600, 600).unwrap(), 0);
    assert_eq!(decode_bit::<u8>(360, 1080).unwrap(), 1);
    assert_eq!(decode_bit::<u8>(600, 1800).unwrap(), 1);
    assert_eq!(
        decode_bit::<u8>(480, 359).unwrap_err(),
        TimingsError::AbnormalLedOffBitValue(359)
    );
    assert_eq!(
        decode_bit::<u8>(480, 601).unwrap_err(),
        TimingsError::AbnormalLedOffBitValue(601)
    );
    assert_eq!(
        decode_bit::<u8>(480, 1079).unwrap_err(),
        TimingsError::AbnormalLedOffBitValue(1079)
    );
    assert_eq!(
        decode_bit::<u8>(480, 1801).unwrap_err(),
        TimingsError::AbnormalLedOffBitValue(1801)
    );
    assert_eq!(
        decode_bit::<u8>(601, 480).unwrap_err(),
        TimingsError::AbnormalLedOnBitValue(601)
    );
}

#[test]
fn bit_fails_on_the_mark_before_the_gap() {
    assert_eq!(
        decode_bit::<u8>(0, 0).unwrap_err(),
        TimingsError::AbnormalLedOnBitValue(0)
    );
    assert_eq!(
        decode_bit::<u8>(1440, 700).unwrap_err(),
        TimingsError::AbnormalLedOnBitValue(1440)
    );
    // a mark of three time units is no mark, though a gap of that length is a 1
    assert_eq!(
        decode_bit::<u8>(1440, 1440).unwrap_err(),
        TimingsError::AbnormalLedOnBitValue(1440)
    );
}

#[test]
fn bit_in_every_width() {
    assert_eq!(decode_bit::<u8>(480, 1440).unwrap(), 1u8);
    assert_eq!(decode_bit::<u16>(480, 1440).unwrap(), 1u16);
    assert_eq!(decode_bit::<u32>(480, 1440).unwrap(), 1u32);
    assert_eq!(decode_bit::<u64>(480, 1440).unwrap(), 1u64);
    assert_eq!(decode_bit::<u128>(480, 1440).unwrap(), 1u128);
    assert_eq!(decode_bit::<u128>(480, 480).unwrap(), 0u128);
}

#[test]
fn value_round_trip() {
    for value in [0u128, 1, 2, 5, 0x0f, 0x80, 0xa5, 0xff] {
        assert_eq!(decode_value::<u8>(&pulse_pairs(value, 8), 8).unwrap() as u128, value);
    }
    for value in [0u128, 1, 0x0c10, 0x8000, 0xcafe, 0x42bc, 0xffff] {
        assert_eq!(decode_value::<u16>(&pulse_pairs(value, 16), 16).unwrap() as u128, value);
    }
    for value in [0u128, 1, 0xdead_beef, 0x8000_0000, 0xffff_ffff] {
        assert_eq!(decode_value::<u32>(&pulse_pairs(value, 32), 32).unwrap() as u128, value);
    }
    for value in [0u128, 1, 0x0123_4567_89ab_cdef, u64::MAX as u128] {
        assert_eq!(decode_value::<u64>(&pulse_pairs(value, 64), 64).unwrap() as u128, value);
    }
    for value in [0u128, 1, 1 << 127, u128::MAX, 0x0123_4567_89ab_cdef_fedc_ba98_7654_3210] {
        assert_eq!(decode_value::<u128>(&pulse_pairs(value, 128), 128).unwrap(), value);
    }
}

#[test]
fn value_of_fewer_bits_than_the_type_has() {
    for value in 0u128..16 {
        assert_eq!(decode_value::<u8>(&pulse_pairs(value, 4), 4).unwrap() as u128, value);
        assert_eq!(decode_value::<u64>(&pulse_pairs(value, 4), 4).unwrap() as u128, value);
    }
    assert_eq!(decode_value::<u16>(&pulse_pairs(0b101, 3), 3).unwrap(), 5);
    assert_eq!(decode_value::<u16>(&pulse_pairs(1, 1), 1).unwrap(), 1);
}

#[test]
fn value_first_pair_is_the_most_significant_bit() {
    let timings: [u32; 8] = [480, 1440, 480, 480, 480, 480, 480, 480];
    assert_eq!(decode_value::<u8>(&timings, 4).unwrap(), 0b1000);
    let timings: [u32; 8] = [480, 480, 480, 480, 480, 480, 480, 1440];
    assert_eq!(decode_value::<u8>(&timings, 4).unwrap(), 0b0001);
    let timings: [u32; 8] = [480, 480, 480, 1440, 480, 1440, 480, 480];
    assert_eq!(decode_value::<u8>(&timings, 4).unwrap(), 0b0110);
}

#[test]
fn value_of_no_bits() {
    let timings: [u32; 0] = [];
    assert_eq!(decode_value::<u8>(&timings, 0).unwrap(), 0);
    assert_eq!(
        decode_value::<u8>(&[480], 0).unwrap_err(),
        TimingsError::WrongTimingsNumber(0, 1)
    );
}

#[test]
fn value_fails_as_the_first_bad_pair() {
    let timings: [u32; 8] = [480, 480, 480, 700, 100, 480, 480, 2000];
    assert_eq!(
        decode_value::<u8>(&timings, 4).unwrap_err(),
        TimingsError::AbnormalLedOffBitValue(700)
    );
    let timings: [u32; 8] = [480, 480, 100, 700, 480, 2000, 480, 480];
    assert_eq!(
        decode_value::<u8>(&timings, 4).unwrap_err(),
        TimingsError::AbnormalLedOnBitValue(100)
    );
    let timings: [u32; 8] = [480, 480, 480, 1440, 480, 480, 480, 2000];
    assert_eq!(
        decode_value::<u8>(&timings, 4).unwrap_err(),
        TimingsError::AbnormalLedOffBitValue(2000)
    );
}

#[test]
fn value_checks_the_number_before_the_durations() {
    let timings: [u32; 3] = [0, 0, 0];
    assert_eq!(
        decode_value::<u8>(&timings, 1).unwrap_err(),
        TimingsError::WrongTimingsNumber(2, 3)
    );
    let timings: [u32; 2] = [0, 0];
    assert_eq!(
        decode_value::<u16>(&timings, 16).unwrap_err(),
        TimingsError::WrongTimingsNumber(32, 2)
    );
    let timings: [u32; 0] = [];
    assert_eq!(
        decode_value::<u8>(&timings, 4).unwrap_err(),
        TimingsError::WrongTimingsNumber(8, 0)
    );
}
