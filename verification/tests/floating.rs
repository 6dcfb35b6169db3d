use castmatch::ieee::{
    float_to_float, float_to_int, int_to_float, is_finite_pattern, length_in_bits, pack_nearest,
    power_of_two, round_shifted, Format,
};

#[test]
fn format_parameters() {
    assert_eq!(Format::Single.fraction_width(), 23);
    assert_eq!(Format::Double.fraction_width(), 52);
    assert_eq!(Format::Single.fraction_limit(), 1 << 23);
    assert_eq!(Format::Double.fraction_limit(), 1 << 52);
    assert_eq!(Format::Single.exponent_limit(), 256);
    assert_eq!(Format::Double.exponent_limit(), 2048);
    assert_eq!(Format::Single.exponent_bias(), 127);
    assert_eq!(Format::Double.exponent_bias(), 1023);
}

#[test]
fn powers_and_lengths() {
    for k in 0..64u32 {
        assert_eq!(power_of_two(k), 1u64 << k);
        assert_eq!(length_in_bits(1u64 << k), k + 1);
        assert_eq!(length_in_bits((1u64 << k) - 1), k);
    }
    assert_eq!(length_in_bits(0), 0);
    assert_eq!(length_in_bits(u64::MAX), 64);
    assert_eq!(length_in_bits(5), 3);
}

#[test]
fn rounding_to_the_nearest_with_ties_to_even() {
    assert_eq!(round_shifted(5, 0), 5);
    assert_eq!(round_shifted(4, 1), 2);
    assert_eq!(round_shifted(5, 1), 2);
    assert_eq!(round_shifted(6, 1), 3);
    assert_eq!(round_shifted(7, 1), 4);
    assert_eq!(round_shifted(9, 2), 2);
    assert_eq!(round_shifted(10, 2), 2);
    assert_eq!(round_shifted(11, 2), 3);
    assert_eq!(round_shifted(14, 2), 4);
    assert_eq!(round_shifted(13, 2), 3);
    assert_eq!(round_shifted(u64::MAX, 0), u64::MAX);
    assert_eq!(round_shifted(u64::MAX, 1), 1 << 63);
    assert_eq!(round_shifted(u64::MAX, 63), 2);
    assert_eq!(round_shifted(1 << 63, 63), 1);
    assert_eq!(round_shifted((1 << 62) + 1, 63), 1);
    assert_eq!(round_shifted(1 << 62, 63), 0);
    assert_eq!(round_shifted(3 << 62, 63), 2);
    assert_eq!(round_shifted(u64::MAX, 64), 1);
    assert_eq!(round_shifted(1 << 63, 64), 0);
    assert_eq!(round_shifted((1 << 63) + 1, 64), 1);
    assert_eq!(round_shifted(u64::MAX, 65), 0);
    assert_eq!(round_shifted(u64::MAX, u64::MAX), 0);
    assert_eq!(round_shifted(0, 64), 0);
}

#[test]
fn packing_a_significand_and_an_exponent() {
    assert_eq!(pack_nearest(Format::Single, false, 0, 0), 0);
    assert_eq!(pack_nearest(Format::Single, true, 0, 5), 0x8000_0000);
    assert_eq!(pack_nearest(Format::Single, false, 1, 0), 1.0_f32.to_bits() as u64);
    assert_eq!(pack_nearest(Format::Single, true, 3, -1), (-1.5_f32).to_bits() as u64);
    assert_eq!(pack_nearest(Format::Double, false, 3, -1), 1.5_f64.to_bits());
    assert_eq!(pack_nearest(Format::Single, false, 1, -149), 1);
    assert_eq!(pack_nearest(Format::Single, false, 1, -150), 0);
    assert_eq!(pack_nearest(Format::Single, false, 3, -151), 1);
    assert_eq!(pack_nearest(Format::Single, false, 1, 127), 2.0_f32.powi(127).to_bits() as u64);
    assert_eq!(pack_nearest(Format::Single, false, 1, 128), f32::INFINITY.to_bits() as u64);
    assert_eq!(pack_nearest(Format::Single, true, 1, 128), f32::NEG_INFINITY.to_bits() as u64);
    assert_eq!(
        pack_nearest(Format::Single, false, 0xff_ffff, 104),
        f32::MAX.to_bits() as u64
    );
    assert_eq!(
        pack_nearest(Format::Single, false, 0x1ff_ffff, 103),
        f32::INFINITY.to_bits() as u64
    );
    assert_eq!(pack_nearest(Format::Double, false, 1, -1074), 1);
    assert_eq!(pack_nearest(Format::Double, false, 1, -1075), 0);
    assert_eq!(pack_nearest(Format::Double, false, 1, 1024), f64::INFINITY.to_bits());
    for e in [i64::MAX, 1 << 40, 0x1001, 5000] {
        assert_eq!(pack_nearest(Format::Double, false, 1, e), f64::INFINITY.to_bits());
        assert_eq!(pack_nearest(Format::Single, true, u64::MAX, e), f32::NEG_INFINITY.to_bits() as u64);
    }
    for e in [i64::MIN, -(1 << 40), -0x1001, -5000] {
        assert_eq!(pack_nearest(Format::Double, false, u64::MAX, e), 0);
        assert_eq!(pack_nearest(Format::Single, true, 1, e), 0x8000_0000);
    }
    assert_eq!(pack_nearest(Format::Double, false, u64::MAX, 0), (u64::MAX as f64).to_bits());
    assert_eq!(pack_nearest(Format::Single, false, u64::MAX, 0), (u64::MAX as f32).to_bits() as u64);
}

#[test]
fn finite_patterns() {
    assert!(is_finite_pattern(Format::Single, 0));
    assert!(is_finite_pattern(Format::Single, f32::MAX.to_bits() as u64));
    assert!(is_finite_pattern(Format::Single, f32::MIN.to_bits() as u64));
    assert!(!is_finite_pattern(Format::Single, f32::INFINITY.to_bits() as u64));
    assert!(!is_finite_pattern(Format::Single, f32::NEG_INFINITY.to_bits() as u64));
    assert!(!is_finite_pattern(Format::Single, f32::NAN.to_bits() as u64));
    assert!(is_finite_pattern(Format::Double, f64::MAX.to_bits()));
    assert!(!is_finite_pattern(Format::Double, f64::INFINITY.to_bits()));
    assert!(!is_finite_pattern(Format::Double, f64::NAN.to_bits()));
}

#[test]
fn conversions_on_patterns() {
    assert_eq!(float_to_int(Format::Single, 300.0_f32.to_bits() as u64, 0, 255), 255);
    assert_eq!(float_to_int(Format::Single, 300.0_f32.to_bits() as u64, 0, 1000), 300);
    assert_eq!(float_to_int(Format::Double, (-2.9_f64).to_bits(), -10, 10), -2);
    assert_eq!(float_to_int(Format::Double, f64::NAN.to_bits(), -10, 10), 0);
    assert_eq!(float_to_int(Format::Double, f64::NEG_INFINITY.to_bits(), -10, 10), -10);
    assert_eq!(float_to_int(Format::Double, 1e300_f64.to_bits(), 0, 1 << 64), 1 << 64);
    assert_eq!(float_to_int(Format::Double, (-1e300_f64).to_bits(), -(1 << 64), 0), -(1 << 64));
    assert_eq!(float_to_int(Format::Double, 5e-324_f64.to_bits(), -1, 1), 0);
    assert_eq!(int_to_float(Format::Single, 16777217), 16777216.0_f32.to_bits() as u64);
    assert_eq!(int_to_float(Format::Double, -3), (-3.0_f64).to_bits());
    assert_eq!(int_to_float(Format::Double, (1 << 64) - 1), 18446744073709551616.0_f64.to_bits());
    assert_eq!(int_to_float(Format::Single, 1 - (1 << 64)), (-18446744073709551616.0_f32).to_bits() as u64);
    assert_eq!(
        float_to_float(Format::Single, 0.1_f32.to_bits() as u64, Format::Double),
        (0.1_f32 as f64).to_bits()
    );
    assert_eq!(
        float_to_float(Format::Double, 0.1_f64.to_bits(), Format::Single),
        (0.1_f64 as f32).to_bits() as u64
    );
    assert_eq!(float_to_float(Format::Double, 0.1_f64.to_bits(), Format::Double), 0.1_f64.to_bits());
    assert_eq!(
        float_to_float(Format::Double, f64::NAN.to_bits(), Format::Single),
        0x7fc0_0000
    );
    assert_eq!(
        float_to_float(Format::Single, f32::NAN.to_bits() as u64, Format::Double),
        0x7ff8_0000_0000_0000
    );
}
