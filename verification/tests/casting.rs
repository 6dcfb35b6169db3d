use castmatch::numeric::{
    cast, cast_unchecked, fits, to_char, CastRequest, NumericType, NumericValue,
};

const INTEGER_TYPES: [NumericType; 8] = [
    NumericType::I8,
    NumericType::I16,
    NumericType::I32,
    NumericType::I64,
    NumericType::U8,
    NumericType::U16,
    NumericType::U32,
    NumericType::U64,
];

/// What the machine's own conversion gives for an integer.
fn native_from_i128(n: i128, target: NumericType) -> NumericValue {
    match target {
        NumericType::I8 => NumericValue::I8(n as i8),
        NumericType::I16 => NumericValue::I16(n as i16),
        NumericType::I32 => NumericValue::I32(n as i32),
        NumericType::I64 => NumericValue::I64(n as i64),
        NumericType::U8 => NumericValue::U8(n as u8),
        NumericType::U16 => NumericValue::U16(n as u16),
        NumericType::U32 => NumericValue::U32(n as u32),
        NumericType::U64 => NumericValue::U64(n as u64),
        NumericType::F32 => NumericValue::F32((n as f32).to_bits()),
        NumericType::F64 => NumericValue::F64((n as f64).to_bits()),
    }
}

/// What the machine's own conversion gives for a 32-bit float.
fn native_from_f32(x: f32, target: NumericType) -> NumericValue {
    match target {
        NumericType::I8 => NumericValue::I8(x as i8),
        NumericType::I16 => NumericValue::I16(x as i16),
        NumericType::I32 => NumericValue::I32(x as i32),
        NumericType::I64 => NumericValue::I64(x as i64),
        NumericType::U8 => NumericValue::U8(x as u8),
        NumericType::U16 => NumericValue::U16(x as u16),
        NumericType::U32 => NumericValue::U32(x as u32),
        NumericType::U64 => NumericValue::U64(x as u64),
        NumericType::F32 => NumericValue::F32(x.to_bits()),
        NumericType::F64 => NumericValue::F64((x as f64).to_bits()),
    }
}

/// What the machine's own conversion gives for a 64-bit float.
fn native_from_f64(x: f64, target: NumericType) -> NumericValue {
    match target {
        NumericType::I8 => NumericValue::I8(x as i8),
        NumericType::I16 => NumericValue::I16(x as i16),
        NumericType::I32 => NumericValue::I32(x as i32),
        NumericType::I64 => NumericValue::I64(x as i64),
        NumericType::U8 => NumericValue::U8(x as u8),
        NumericType::U16 => NumericValue::U16(x as u16),
        NumericType::U32 => NumericValue::U32(x as u32),
        NumericType::U64 => NumericValue::U64(x as u64),
        NumericType::F32 => NumericValue::F32((x as f32).to_bits()),
        NumericType::F64 => NumericValue::F64(x.to_bits()),
    }
}

fn widened(value: NumericValue) -> i128 {
    match value {
        NumericValue::I8(v) => v as i128,
        NumericValue::I16(v) => v as i128,
        NumericValue::I32(v) => v as i128,
        NumericValue::I64(v) => v as i128,
        NumericValue::U8(v) => v as i128,
        NumericValue::U16(v) => v as i128,
        NumericValue::U32(v) => v as i128,
        NumericValue::U64(v) => v as i128,
        NumericValue::F32(b) => b as i128,
        NumericValue::F64(b) => b as i128,
    }
}

/// A fixed sequence of 64-bit patterns that covers the bit positions well.
fn patterns(count: usize) -> Vec<u64> {
    let mut out = vec![
        0,
        1,
        2,
        0x7f,
        0x80,
        0xff,
        0x100,
        0x7fff,
        0x8000,
        0xffff,
        0x7fff_ffff,
        0x8000_0000,
        0xffff_ffff,
        0x1_0000_0000,
        0x7fff_ffff_ffff_ffff,
        0x8000_0000_0000_0000,
        0xffff_ffff_ffff_ffff,
        0x00ff_ffff,
        0x0100_0000,
        0x0100_0001,
        0x0100_0002,
        0x0100_0003,
        0x001f_ffff_ffff_ffff,
        0x0020_0000_0000_0000,
        0x0020_0000_0000_0001,
        0x0020_0000_0000_0003,
        0x7fff_ffff_ffff_fc00,
        0x7fff_ffff_ffff_fdff,
        0xffff_ffff_ffff_fbff,
        0xffff_ffff_ffff_fc00,
        0xffff_ff7f_ffff_ffff,
        0xffff_ff80_0000_0000,
    ];
    let mut state: u64 = 0x9e37_79b9_7f4a_7c15;
    while out.len() < count {
        state ^= state << 13;
        state ^= state >> 7;
        state ^= state << 17;
        let keep = (state >> 58) as u32;
        out.push(state >> keep);
        out.push(state);
    }
    out
}

fn integer_values(bits: u64) -> Vec<NumericValue> {
    vec![
        NumericValue::I8(bits as i8),
        NumericValue::I16(bits as i16),
        NumericValue::I32(bits as i32),
        NumericValue::I64(bits as i64),
        NumericValue::U8(bits as u8),
        NumericValue::U16(bits as u16),
        NumericValue::U32(bits as u32),
        NumericValue::U64(bits),
    ]
}

fn same_number(ours: NumericValue, native: NumericValue) -> bool {
    match (ours, native) {
        (NumericValue::F32(a), NumericValue::F32(b)) => {
            a == b || (f32::from_bits(a).is_nan() && f32::from_bits(b).is_nan())
        }
        (NumericValue::F64(a), NumericValue::F64(b)) => {
            a == b || (f64::from_bits(a).is_nan() && f64::from_bits(b).is_nan())
        }
        (a, b) => a == b,
    }
}

#[test]
fn integer_casts_agree_with_the_machine() {
    for bits in patterns(4000) {
        for value in integer_values(bits) {
            for target in INTEGER_TYPES {
                assert_eq!(cast(value, target), native_from_i128(widened(value), target));
            }
        }
    }
}

#[test]
fn integer_to_float_agrees_with_the_machine() {
    for bits in patterns(20000) {
        for value in integer_values(bits) {
            for target in [NumericType::F32, NumericType::F64] {
                assert_eq!(
                    cast(value, target),
                    native_from_i128(widened(value), target),
                    "{:?} to {:?}",
                    value,
                    target
                );
            }
        }
    }
}

#[test]
fn float_to_integer_agrees_with_the_machine() {
    for bits in patterns(20000) {
        let single = f32::from_bits(bits as u32);
        let double = f64::from_bits(bits);
        for target in INTEGER_TYPES {
            assert_eq!(
                cast(NumericValue::F32(bits as u32), target),
                native_from_f32(single, target),
                "{:?} to {:?}",
                single,
                target
            );
            assert_eq!(
                cast(NumericValue::F64(bits), target),
                native_from_f64(double, target),
                "{:?} to {:?}",
                double,
                target
            );
        }
    }
}

#[test]
fn float_to_integer_near_the_bounds() {
    let around: [f64; 24] = [
        -129.5, -129.0, -128.9, -128.0, -0.9, -0.0, 0.0, 0.9, 126.9, 127.0, 127.9, 128.0, 254.9,
        255.0, 255.9, 256.0, 2147483647.5, 2147483648.0, -2147483648.9, -2147483649.0,
        9223372036854775807.0, 18446744073709551615.0, -9223372036854775808.0, 1e300,
    ];
    for x in around {
        for target in INTEGER_TYPES {
            assert_eq!(cast(NumericValue::F64(x.to_bits()), target), native_from_f64(x, target));
            let y = x as f32;
            assert_eq!(cast(NumericValue::F32(y.to_bits()), target), native_from_f32(y, target));
        }
    }
}

#[test]
fn float_to_float_agrees_with_the_machine() {
    for bits in patterns(40000) {
        let single = f32::from_bits(bits as u32);
        let double = f64::from_bits(bits);
        for target in [NumericType::F32, NumericType::F64] {
            assert!(
                same_number(
                    cast(NumericValue::F32(bits as u32), target),
                    native_from_f32(single, target)
                ),
                "{:?} to {:?}",
                single,
                target
            );
            assert!(
                same_number(cast(NumericValue::F64(bits), target), native_from_f64(double, target)),
                "{:?} to {:?}",
                double,
                target
            );
        }
    }
}

#[test]
fn double_to_single_around_the_edges_of_the_format() {
    let cases: [f64; 16] = [
        3.4028234663852886e38,
        3.4028235677973366e38,
        3.4028235677973362e38,
        3.5e38,
        1.1754943508222875e-38,
        1.1754942106924411e-38,
        1.401298464324817e-45,
        7.006492321624085e-46,
        7.006492321624087e-46,
        7.0064923216240e-46,
        2.1019476964872256e-45,
        1e-320,
        5e-324,
        16777217.0,
        16777219.0,
        0.1,
    ];
    for x in cases {
        for y in [x, -x] {
            assert_eq!(
                cast(NumericValue::F64(y.to_bits()), NumericType::F32),
                NumericValue::F32((y as f32).to_bits()),
                "{:e}",
                y
            );
        }
    }
}

#[test]
fn saturating_examples() {
    let nan = NumericValue::F32(f32::NAN.to_bits());
    assert_eq!(cast(nan, NumericType::U8), NumericValue::U8(0));
    assert_eq!(cast(NumericValue::F32(300.0_f32.to_bits()), NumericType::U8), NumericValue::U8(255));
    assert_eq!(cast(NumericValue::F32((-100.0_f32).to_bits()), NumericType::U8), NumericValue::U8(0));
    assert_eq!(cast(NumericValue::F32(128.0_f32.to_bits()), NumericType::I8), NumericValue::I8(127));
    assert_eq!(
        cast(NumericValue::F64(f64::INFINITY.to_bits()), NumericType::I64),
        NumericValue::I64(i64::MAX)
    );
    assert_eq!(
        cast(NumericValue::F64(f64::NEG_INFINITY.to_bits()), NumericType::I16),
        NumericValue::I16(i16::MIN)
    );
    assert_eq!(cast(NumericValue::F64(f64::NAN.to_bits()), NumericType::I32), NumericValue::I32(0));
}

#[test]
fn wraparound_examples() {
    assert_eq!(cast(NumericValue::I32(1000), NumericType::U16), NumericValue::U16(1000));
    assert_eq!(cast(NumericValue::I32(1000), NumericType::U8), NumericValue::U8(232));
    assert_eq!(cast(NumericValue::I8(-1), NumericType::U8), NumericValue::U8(255));
    assert_eq!(cast(NumericValue::I32(128), NumericType::I16), NumericValue::I16(128));
    assert_eq!(cast(NumericValue::I32(128), NumericType::I8), NumericValue::I8(-128));
    assert_eq!(cast(NumericValue::I32(232), NumericType::I8), NumericValue::I8(-24));
    assert_eq!(cast(NumericValue::U64(5), NumericType::U64), NumericValue::U64(5));
}

#[test]
fn every_signed_byte_to_unsigned_byte() {
    for v in i8::MIN..=i8::MAX {
        let expected = if v >= 0 { v as i32 } else { v as i32 + 256 };
        assert_eq!(cast(NumericValue::I8(v), NumericType::U8), NumericValue::U8(expected as u8));
    }
}

#[test]
fn in_range_values_are_kept() {
    for v in 0..=255u32 {
        assert_eq!(cast(NumericValue::U32(v), NumericType::U8), NumericValue::U8(v as u8));
        assert_eq!(cast(NumericValue::I64(v as i64), NumericType::U8), NumericValue::U8(v as u8));
    }
    assert_eq!(cast(NumericValue::I64(65535), NumericType::U16), NumericValue::U16(65535));
    assert_eq!(cast(NumericValue::U64(4294967295), NumericType::U32), NumericValue::U32(4294967295));
}

#[test]
fn round_trip_through_a_type_that_holds_the_value() {
    for bits in patterns(2000) {
        for value in integer_values(bits) {
            for through in INTEGER_TYPES {
                let there = cast(value, through);
                if widened(there) == widened(value) {
                    assert_eq!(cast(there, value.kind()), value);
                }
            }
        }
    }
    assert_eq!(
        cast(cast(NumericValue::I8(-5), NumericType::I64), NumericType::I8),
        NumericValue::I8(-5)
    );
}

#[test]
fn float_then_char_example() {
    let decimal = NumericValue::F32(65.4321_f32.to_bits());
    let integer = cast(decimal, NumericType::U8);
    assert_eq!(integer, NumericValue::U8(65));
    assert_eq!(to_char(integer), Some('A'));
    assert_eq!(to_char(NumericValue::U8(255)), Some('\u{ff}'));
    assert_eq!(to_char(NumericValue::I8(65)), None);
    assert_eq!(to_char(NumericValue::U16(65)), None);
    assert_eq!(to_char(decimal), None);
}

#[test]
fn unchecked_cast_of_a_number_in_range() {
    let value = NumericValue::F32(200.75_f32.to_bits());
    assert_eq!(cast_unchecked(value, NumericType::U8), NumericValue::U8(200));
    assert_eq!(cast_unchecked(value, NumericType::U8), cast(value, NumericType::U8));
    let negative = NumericValue::F64((-3.99_f64).to_bits());
    assert_eq!(cast_unchecked(negative, NumericType::I16), NumericValue::I16(-3));
}

#[test]
fn kinds_and_ranges() {
    assert_eq!(NumericValue::I16(3).kind(), NumericType::I16);
    assert_eq!(NumericValue::F64(0).kind(), NumericType::F64);
    assert!(NumericType::F32.float());
    assert!(!NumericType::U32.float());
    assert!(NumericType::I8.signed());
    assert!(!NumericType::U8.signed());
    assert_eq!(NumericType::U16.bits(), 16);
    assert_eq!(NumericType::I8.min(), -128);
    assert_eq!(NumericType::I8.max(), 127);
    assert_eq!(NumericType::U64.max(), u64::MAX as i128);
    assert_eq!(NumericType::I64.min(), i64::MIN as i128);
}

#[test]
fn a_request_gives_what_the_cast_gives() {
    let request = CastRequest { value: NumericValue::I32(1000), target: NumericType::U8 };
    assert_eq!(request.perform(), NumericValue::U8(232));
    assert_eq!(request.perform(), cast(request.value, request.target));
}

#[test]
fn which_casts_need_no_check() {
    let single = |x: f32| NumericValue::F32(x.to_bits());
    assert!(fits(single(200.75), NumericType::U8));
    assert!(fits(single(255.99), NumericType::U8));
    assert!(fits(single(-0.99), NumericType::U8));
    assert!(!fits(single(256.0), NumericType::U8));
    assert!(!fits(single(300.0), NumericType::U8));
    assert!(!fits(single(-1.0), NumericType::U8));
    assert!(!fits(single(-100.0), NumericType::U8));
    assert!(!fits(single(f32::NAN), NumericType::U8));
    assert!(!fits(single(f32::INFINITY), NumericType::I64));
    assert!(fits(single(-128.5), NumericType::I8));
    assert!(!fits(single(-129.0), NumericType::I8));
    assert!(!fits(single(1.0), NumericType::F64));
    assert!(!fits(NumericValue::I32(1), NumericType::U8));
    let double = |x: f64| NumericValue::F64(x.to_bits());
    assert!(fits(double(18446744073709549568.0), NumericType::U64));
    assert!(!fits(double(18446744073709551616.0), NumericType::U64));
    assert!(fits(double(-9223372036854775808.0), NumericType::I64));
    assert!(!fits(double(9223372036854775808.0), NumericType::I64));
    assert!(!fits(double(1e300), NumericType::U64));
    assert_eq!(
        cast_unchecked(double(-9223372036854775808.0), NumericType::I64),
        NumericValue::I64(i64::MIN)
    );
    assert_eq!(
        cast_unchecked(double(18446744073709549568.0), NumericType::U64),
        NumericValue::U64(18446744073709549568)
    );
}

#[test]
fn single_to_double_and_back() {
    for bits in patterns(20000) {
        let single = bits as u32;
        let wide = cast(NumericValue::F32(single), NumericType::F64);
        let back = cast(wide, NumericType::F32);
        if f32::from_bits(single).is_nan() {
            assert!(same_number(back, NumericValue::F32(single)));
        } else {
            assert_eq!(back, NumericValue::F32(single));
            assert_eq!(wide, NumericValue::F64((f32::from_bits(single) as f64).to_bits()));
        }
    }
    assert_eq!(
        cast(NumericValue::F32(f32::NAN.to_bits()), NumericType::F32),
        NumericValue::F32(f32::NAN.to_bits())
    );
    assert_eq!(
        cast(NumericValue::F64(0x7ff0_0000_0000_0001), NumericType::F64),
        NumericValue::F64(0x7ff0_0000_0000_0001)
    );
}

#[test]
fn small_integers_survive_a_floating_format() {
    for v in [0i64, 1, -1, 255, -256, 16777215, -16777215, 16777216, -16777216] {
        let there = cast(NumericValue::I64(v), NumericType::F32);
        assert_eq!(there, NumericValue::F32((v as f32).to_bits()));
        assert_eq!(cast(there, NumericType::I64), NumericValue::I64(v));
    }
    assert_eq!(
        cast(cast(NumericValue::I64(16777217), NumericType::F32), NumericType::I64),
        NumericValue::I64(16777216)
    );
    assert_eq!(
        cast(cast(NumericValue::I64(16777219), NumericType::F32), NumericType::I64),
        NumericValue::I64(16777220)
    );
    for v in [9007199254740991i64, -9007199254740991, 9007199254740992] {
        let there = cast(NumericValue::I64(v), NumericType::F64);
        assert_eq!(cast(there, NumericType::I64), NumericValue::I64(v));
    }
    assert_eq!(
        cast(cast(NumericValue::I64(9007199254740993), NumericType::F64), NumericType::I64),
        NumericValue::I64(9007199254740992)
    );
    assert_eq!(
        cast(cast(NumericValue::U64(u64::MAX), NumericType::F32), NumericType::U64),
        NumericValue::U64(u64::MAX)
    );
    assert_eq!(
        cast(NumericValue::U64(u64::MAX), NumericType::F32),
        NumericValue::F32(18446744073709551616.0_f32.to_bits())
    );
}
