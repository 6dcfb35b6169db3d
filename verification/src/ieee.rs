//! Binary floating-point numbers in the IEEE 754 interchange formats, read
//! and written as bit patterns.
//!
//! A pattern holds, from the top bit down, a sign, an exponent field and a
//! fraction. A finite number is `significand * 2^exponent`, negated where the
//! sign is set; both are integers, and this module computes with them alone.

use vstd::prelude::*;
use vstd::arithmetic::power2::{lemma2_to64, lemma2_to64_rest, lemma_pow2_adds, lemma_pow2_pos,
    lemma_pow2_strictly_increases, pow2};
use vstd::bits::{lemma_u64_pow2_no_overflow, lemma_u64_shl_is_mul};

pub mod laws;

verus! {

/// The two formats: 32 bits with 8 of exponent and 23 of fraction, 64 bits
/// with 11 of exponent and 52 of fraction.
#[derive(Clone, Copy, Debug, PartialEq, Eq, Structural)]
pub enum Format {
    Single,
    Double,
}

impl Format {
    /// The number of fraction bits.
    pub open spec fn fraction_bits(self) -> nat {
        match self {
            Format::Single => 23,
            Format::Double => 52,
        }
    }

    /// Two to the power of the number of fraction bits.
    pub open spec fn fraction_modulus(self) -> nat {
        match self {
            Format::Single => 0x80_0000,
            Format::Double => 0x10_0000_0000_0000,
        }
    }

    /// Two to the power of the number of exponent bits.
    pub open spec fn exponent_modulus(self) -> nat {
        match self {
            Format::Single => 0x100,
            Format::Double => 0x800,
        }
    }

    /// What the exponent field of a normal number exceeds its exponent by,
    /// when the significand is read as a number from 1 up to 2.
    pub open spec fn bias(self) -> int {
        match self {
            Format::Single => 127,
            Format::Double => 1023,
        }
    }

    /// The weight of the sign bit.
    pub open spec fn sign_weight(self) -> nat {
        self.fraction_modulus() * self.exponent_modulus()
    }

    /// Whether `bits` is a pattern of the format.
    pub open spec fn has(self, bits: nat) -> bool {
        bits < 2 * self.sign_weight()
    }

    /// The least exponent of a finite number, the significand being an
    /// integer: that of the subnormal numbers.
    pub open spec fn least_exponent(self) -> int {
        1 - self.bias() - self.fraction_bits()
    }

    /// The greatest exponent of a finite number, the significand being an
    /// integer.
    pub open spec fn greatest_exponent(self) -> int {
        self.exponent_modulus() - 2 - self.bias() - self.fraction_bits()
    }

    /// The number of fraction bits.
    pub fn fraction_width(self) -> (r: u32)
        ensures
            r == self.fraction_bits(),
            pow2(r as nat) == self.fraction_modulus(),
    {
        proof {
            lemma2_to64();
            lemma2_to64_rest();
        }
        match self {
            Format::Single => 23,
            Format::Double => 52,
        }
    }

    /// Two to the power of the number of fraction bits.
    pub fn fraction_limit(self) -> (r: u64)
        ensures
            r == self.fraction_modulus(),
    {
        match self {
            Format::Single => 0x80_0000,
            Format::Double => 0x10_0000_0000_0000,
        }
    }

    /// Two to the power of the number of exponent bits.
    pub fn exponent_limit(self) -> (r: u64)
        ensures
            r == self.exponent_modulus(),
    {
        match self {
            Format::Single => 0x100,
            Format::Double => 0x800,
        }
    }

    /// The bias of the exponent field.
    pub fn exponent_bias(self) -> (r: i64)
        ensures
            r == self.bias(),
    {
        match self {
            Format::Single => 127,
            Format::Double => 1023,
        }
    }
}

/// The fraction of a pattern.
pub open spec fn fraction(format: Format, bits: nat) -> nat {
    bits % format.fraction_modulus()
}

/// The exponent field of a pattern.
pub open spec fn exponent_field(format: Format, bits: nat) -> nat {
    (bits / format.fraction_modulus()) % format.exponent_modulus()
}

/// Whether the sign of a pattern is set.
pub open spec fn is_negative(format: Format, bits: nat) -> bool {
    (bits / format.sign_weight()) % 2 == 1
}

/// Whether a pattern is not a number.
pub open spec fn is_nan(format: Format, bits: nat) -> bool {
    exponent_field(format, bits) == format.exponent_modulus() - 1 && fraction(format, bits) != 0
}

/// Whether a pattern is an infinity.
pub open spec fn is_infinite(format: Format, bits: nat) -> bool {
    exponent_field(format, bits) == format.exponent_modulus() - 1 && fraction(format, bits) == 0
}

/// Whether a pattern is a finite number.
pub open spec fn is_finite(format: Format, bits: nat) -> bool {
    exponent_field(format, bits) < format.exponent_modulus() - 1
}

/// The significand of a finite number as an integer: the fraction, with the
/// implicit leading bit above it unless the number is subnormal.
pub open spec fn significand(format: Format, bits: nat) -> nat {
    if exponent_field(format, bits) == 0 {
        fraction(format, bits)
    } else {
        format.fraction_modulus() + fraction(format, bits)
    }
}

/// The exponent of a finite number, the significand being an integer.
pub open spec fn exponent(format: Format, bits: nat) -> int {
    if exponent_field(format, bits) == 0 {
        format.least_exponent()
    } else {
        exponent_field(format, bits) - format.bias() - format.fraction_bits()
    }
}

/// The integer part of `m * 2^e`.
pub open spec fn scaled(m: nat, e: int) -> nat {
    if e >= 0 {
        m * pow2(e as nat)
    } else {
        m / pow2((-e) as nat)
    }
}

/// A finite number truncated toward zero.
pub open spec fn truncated(format: Format, bits: nat) -> int {
    let magnitude = scaled(significand(format, bits), exponent(format, bits));
    if is_negative(format, bits) {
        -magnitude
    } else {
        magnitude as int
    }
}

/// The integer from `low` to `high` that is nearest to `n`.
pub open spec fn clamped(n: int, low: int, high: int) -> int {
    if n < low {
        low
    } else if n > high {
        high
    } else {
        n
    }
}

/// The integer from `low` to `high` that a pattern becomes: zero for what is
/// not a number, else the number truncated toward zero, or the bound it lies
/// beyond.
pub open spec fn float_to_int_spec(format: Format, bits: nat, low: int, high: int) -> int {
    if is_nan(format, bits) {
        0
    } else if is_infinite(format, bits) {
        if is_negative(format, bits) {
            low
        } else {
            high
        }
    } else {
        clamped(truncated(format, bits), low, high)
    }
}

/// Two to the power of `k`.
pub fn power_of_two(k: u32) -> (r: u64)
    requires
        k < 64,
    ensures
        r == pow2(k as nat),
        r > 0,
{
    proof {
        lemma_u64_pow2_no_overflow(k as nat);
        lemma_u64_shl_is_mul(1, k as u64);
    }
    1u64 << k
}

/// Whether a pattern is a finite number.
pub fn is_finite_pattern(format: Format, bits: u64) -> (r: bool)
    ensures
        r == is_finite(format, bits as nat),
{
    (bits / format.fraction_limit()) % format.exponent_limit() < format.exponent_limit() - 1
}

/// The integer from `low` to `high` that a pattern becomes.
pub fn float_to_int(format: Format, bits: u64, low: i128, high: i128) -> (r: i128)
    requires
        -0x1_0000_0000_0000_0000 <= low <= 0 <= high <= 0x1_0000_0000_0000_0000,
    ensures
        r == float_to_int_spec(format, bits as nat, low as int, high as int),
{
    let limit: u64 = format.fraction_limit();
    let fraction: u64 = bits % limit;
    let field: u64 = (bits / limit) % format.exponent_limit();
    let negative: bool = (bits / limit / format.exponent_limit()) % 2 == 1;
    assert(negative == is_negative(format, bits as nat)) by {
        lemma_div_twice(bits as int, limit as int, format.exponent_modulus() as int);
    }
    if field == format.exponent_limit() - 1 {
        return if fraction != 0 {
            0
        } else if negative {
            low
        } else {
            high
        };
    }
    let significand: u64 = if field == 0 {
        fraction
    } else {
        limit + fraction
    };
    let width: i64 = format.fraction_width() as i64;
    let exponent: i64 = if field == 0 {
        1 - format.exponent_bias() - width
    } else {
        field as i64 - format.exponent_bias() - width
    };
    assert(significand as nat == self::significand(format, bits as nat));
    assert(exponent as int == self::exponent(format, bits as nat));
    assert(significand < 0x20_0000_0000_0000);
    let magnitude: u128 = if exponent >= 64 {
        proof {
            lemma_scaled_is_large(significand as nat, exponent as int);
        }
        0x1_0000_0000_0000_0000
    } else if exponent >= 0 {
        let factor: u64 = power_of_two(exponent as u32);
        assert(significand * factor <= 0x20_0000_0000_0000 * 0xffff_ffff_ffff_ffff)
            by (nonlinear_arith)
            requires
                significand <= 0x20_0000_0000_0000,
                factor <= 0xffff_ffff_ffff_ffff,
        ;
        significand as u128 * factor as u128
    } else if exponent > -64 {
        (significand / power_of_two((-exponent) as u32)) as u128
    } else {
        proof {
            lemma_scaled_is_zero(significand as nat, exponent as int);
        }
        0
    };
    assert(magnitude <= 0x20_0000_0000_0000 * 0xffff_ffff_ffff_ffff);
    assert(magnitude == scaled(significand as nat, exponent as int) || (magnitude
        == 0x1_0000_0000_0000_0000 && scaled(significand as nat, exponent as int)
        >= 0x1_0000_0000_0000_0000));
    let number: i128 = if negative {
        -(magnitude as i128)
    } else {
        magnitude as i128
    };
    if number < low {
        low
    } else if number > high {
        high
    } else {
        number
    }
}

/// The number of bits of `n`: none for zero, else one more than the position
/// of the highest bit that is set.
pub open spec fn bit_length(n: nat) -> nat
    decreases n,
{
    if n == 0 {
        0
    } else {
        1 + bit_length(n / 2)
    }
}

/// `n / 2^shift` rounded to the nearest integer, and to the even one of the
/// two where it lies halfway between them.
pub open spec fn rounded_quotient(n: nat, shift: nat) -> nat {
    let unit = pow2(shift);
    let quotient = n / unit;
    let rest = n % unit;
    if 2 * rest > unit || (2 * rest == unit && quotient % 2 == 1) {
        quotient + 1
    } else {
        quotient
    }
}

/// The exponent at which the format holds `m * 2^e`, for `m` above zero: the
/// one that leaves the significand as many bits as the format has, but not
/// less than the least exponent.
pub open spec fn quantum(format: Format, m: nat, e: int) -> int {
    let natural = bit_length(m) + e - (format.fraction_bits() + 1);
    if natural < format.least_exponent() {
        format.least_exponent()
    } else {
        natural
    }
}

/// The significand of `m * 2^e` at the exponent of [`quantum`], rounded to
/// the nearest integer where that exponent is above `e`, a tie to the even
/// one.
pub open spec fn rounded_significand(format: Format, m: nat, e: int) -> nat {
    let q = quantum(format, m, e);
    if e >= q {
        m * pow2((e - q) as nat)
    } else {
        rounded_quotient(m, (q - e) as nat)
    }
}

/// The pattern of the infinity of a sign.
pub open spec fn infinity(format: Format, negative: bool) -> nat {
    let sign = if negative {
        format.sign_weight()
    } else {
        0
    };
    (sign + (format.exponent_modulus() - 1) * format.fraction_modulus()) as nat
}

/// The pattern that stands for what is not a number: the exponent field full
/// and the top bit of the fraction set.
pub open spec fn quiet_nan(format: Format) -> nat {
    let full = (format.exponent_modulus() - 1) * format.fraction_modulus();
    (full + format.fraction_modulus() / 2) as nat
}

/// The pattern of the number of the format that is nearest to `m * 2^e`, with
/// the sign given: a tie goes to the even significand, and a number beyond
/// the greatest finite one becomes the infinity.
///
/// The pattern is the rounded significand `n` added to the exponent field of
/// the quantum `q` less one. Where `n` has the implicit leading bit, or has
/// been rounded up to the next power of two, the bit is carried into the
/// exponent field, which is how the format lays its numbers out:
/// [`law_pack_reads_back`] says what the pattern is read as.
pub open spec fn pack(format: Format, negative: bool, m: nat, e: int) -> nat {
    let sign = if negative {
        format.sign_weight()
    } else {
        0
    };
    if m == 0 {
        sign
    } else {
        let q = quantum(format, m, e);
        if q > format.greatest_exponent() {
            infinity(format, negative)
        } else {
            let n = rounded_significand(format, m, e);
            (sign + (q - format.least_exponent()) * format.fraction_modulus() + n) as nat
        }
    }
}

/// The pattern that an integer becomes: that of the nearest number of the
/// format.
pub open spec fn int_to_float_spec(format: Format, v: int) -> nat {
    pack(
        format,
        v < 0,
        (if v < 0 {
            -v
        } else {
            v
        }) as nat,
        0,
    )
}

/// The pattern of `to` that a pattern of `from` becomes: itself within one
/// format; else the nearest number of `to`, an infinity for an infinity, and
/// what is not a number stays so.
pub open spec fn float_to_float_spec(from: Format, bits: nat, to: Format) -> nat {
    if from == to {
        bits
    } else if is_nan(from, bits) {
        quiet_nan(to)
    } else if is_infinite(from, bits) {
        infinity(to, is_negative(from, bits))
    } else {
        pack(to, is_negative(from, bits), significand(from, bits), exponent(from, bits))
    }
}

/// The number of bits of `n`.
pub fn length_in_bits(n: u64) -> (r: u32)
    ensures
        r == bit_length(n as nat),
        r <= 64,
        n < pow2(r as nat),
        n > 0 ==> r >= 1 && n >= pow2((r - 1) as nat),
{
    proof {
        lemma_bit_length_bounds(n as nat);
        lemma2_to64();
        if bit_length(n as nat) > 64 {
            lemma_pow2_strictly_increases(64, (bit_length(n as nat) - 1) as nat);
        }
    }
    let mut rest: u64 = n;
    let mut count: u32 = 0;
    while rest > 0
        invariant
            bit_length(n as nat) == count + bit_length(rest as nat),
            bit_length(n as nat) <= 64,
        decreases rest,
    {
        rest = rest / 2;
        count += 1;
    }
    count
}

/// `n / 2^shift` rounded to the nearest integer, a tie to the even one.
pub fn round_shifted(n: u64, shift: u64) -> (r: u64)
    ensures
        r == rounded_quotient(n as nat, shift as nat),
{
    if shift >= 64 {
        proof {
            lemma2_to64();
            if shift > 64 {
                lemma_pow2_strictly_increases(64, shift as nat);
            }
            let unit = pow2(shift as nat);
            assert(n < unit);
            vstd::arithmetic::div_mod::lemma_small_mod(n as nat, unit);
            vstd::arithmetic::div_mod::lemma_basic_div(n as int, unit as int);
            assert(n as nat / unit == 0);
            assert(n as nat % unit == n);
            if shift > 64 {
                vstd::arithmetic::power2::lemma_pow2_unfold(shift as nat);
                if shift > 65 {
                    lemma_pow2_strictly_increases(64, (shift - 1) as nat);
                }
                assert(2 * n < unit);
            }
        }
        if shift == 64 && n > 0x8000_0000_0000_0000 {
            1
        } else {
            0
        }
    } else {
        let unit: u64 = power_of_two(shift as u32);
        let quotient: u64 = n / unit;
        let rest: u64 = n % unit;
        let twice: u128 = 2 * (rest as u128);
        if twice > unit as u128 || (twice == unit as u128 && quotient % 2 == 1) {
            proof {
                if quotient == 0xffff_ffff_ffff_ffff {
                    assert(unit == 1) by (nonlinear_arith)
                        requires
                            n / unit == 0xffff_ffff_ffff_ffff,
                            n <= 0xffff_ffff_ffff_ffff,
                            unit >= 1,
                    ;
                }
            }
            quotient + 1
        } else {
            quotient
        }
    }
}

/// The pattern of the number of the format that is nearest to `m * 2^e`, with
/// the sign given.
pub fn pack_nearest(format: Format, negative: bool, m: u64, e: i64) -> (bits: u64)
    ensures
        bits == pack(format, negative, m as nat, e as int),
        format.has(bits as nat),
{
    let limit: u64 = format.fraction_limit();
    let sign: u64 = if negative {
        limit * format.exponent_limit()
    } else {
        0
    };
    if m == 0 {
        return sign;
    }
    let width: i64 = format.fraction_width() as i64;
    let length: i64 = length_in_bits(m) as i64;
    let least: i64 = 1 - format.exponent_bias() - width;
    let greatest: i64 = format.exponent_limit() as i64 - 2 - format.exponent_bias() - width;
    if e > 0x1000 {
        return sign + (format.exponent_limit() - 1) * limit;
    }
    if e < -0x1000 {
        proof {
            lemma_rounds_to_zero(m as nat, (least - e) as nat);
        }
        return sign;
    }
    let natural: i64 = length + e - (width + 1);
    let q: i64 = if natural < least {
        least
    } else {
        natural
    };
    if q > greatest {
        return sign + (format.exponent_limit() - 1) * limit;
    }
    let n: u64 = if e >= q {
        proof {
            lemma_scaled_fits(m as nat, length as nat, (e - q) as nat, (width + 1) as nat);
            lemma_pow2_adds(width as nat, 1);
            lemma2_to64();
        }
        m * power_of_two((e - q) as u32)
    } else {
        proof {
            lemma_rounded_fits(m as nat, length as nat, (q - e) as nat, (width + 1) as nat);
            lemma_pow2_adds(width as nat, 1);
            lemma2_to64();
        }
        round_shifted(m, (q - e) as u64)
    };
    assert(n <= 2 * limit);
    assert((q - least) * limit <= (format.exponent_modulus() - 3) * limit) by (nonlinear_arith)
        requires
            0 <= q - least <= format.exponent_modulus() - 3,
            limit >= 0,
    ;
    sign + (q - least) as u64 * limit + n
}

/// The pattern that an integer becomes.
pub fn int_to_float(format: Format, v: i128) -> (bits: u64)
    requires
        -0x1_0000_0000_0000_0000 < v < 0x1_0000_0000_0000_0000,
    ensures
        bits == int_to_float_spec(format, v as int),
        format.has(bits as nat),
{
    if v < 0 {
        pack_nearest(format, true, (-v) as u64, 0)
    } else {
        pack_nearest(format, false, v as u64, 0)
    }
}

/// The pattern of `to` that a pattern of `from` becomes.
pub fn float_to_float(from: Format, bits: u64, to: Format) -> (r: u64)
    ensures
        r == float_to_float_spec(from, bits as nat, to),
        from.has(bits as nat) ==> to.has(r as nat),
{
    if from == to {
        return bits;
    }
    let limit: u64 = from.fraction_limit();
    let fraction: u64 = bits % limit;
    let field: u64 = (bits / limit) % from.exponent_limit();
    let negative: bool = (bits / limit / from.exponent_limit()) % 2 == 1;
    assert(negative == is_negative(from, bits as nat)) by {
        lemma_div_twice(bits as int, limit as int, from.exponent_modulus() as int);
    }
    if field == from.exponent_limit() - 1 {
        let full: u64 = (to.exponent_limit() - 1) * to.fraction_limit();
        return if fraction != 0 {
            full + to.fraction_limit() / 2
        } else if negative {
            to.fraction_limit() * to.exponent_limit() + full
        } else {
            full
        };
    }
    let width: i64 = from.fraction_width() as i64;
    if field == 0 {
        pack_nearest(to, negative, fraction, 1 - from.exponent_bias() - width)
    } else {
        pack_nearest(to, negative, limit + fraction, field as i64 - from.exponent_bias() - width)
    }
}

proof fn lemma_bit_length_bounds(n: nat)
    ensures
        n < pow2(bit_length(n)),
        n > 0 ==> bit_length(n) >= 1 && n >= pow2((bit_length(n) - 1) as nat),
    decreases n,
{
    lemma2_to64();
    if n > 0 {
        lemma_bit_length_bounds(n / 2);
        vstd::arithmetic::power2::lemma_pow2_unfold(bit_length(n));
        if n / 2 > 0 {
            vstd::arithmetic::power2::lemma_pow2_unfold((bit_length(n) - 1) as nat);
        }
    }
}

proof fn lemma_rounds_to_zero(m: nat, shift: nat)
    requires
        m < 0x1_0000_0000_0000_0000,
        shift >= 66,
    ensures
        rounded_quotient(m, shift) == 0,
{
    lemma2_to64();
    lemma_pow2_strictly_increases(65, shift);
    lemma_pow2_adds(64, 1);
    let unit = pow2(shift);
    vstd::arithmetic::div_mod::lemma_small_mod(m, unit);
    vstd::arithmetic::div_mod::lemma_basic_div(m as int, unit as int);
}

proof fn lemma_scaled_fits(m: nat, length: nat, shift: nat, digits: nat)
    requires
        m < pow2(length),
        length + shift <= digits,
    ensures
        m * pow2(shift) < pow2(digits),
{
    lemma_pow2_adds(length, shift);
    lemma_pow2_pos(shift);
    if length + shift < digits {
        lemma_pow2_strictly_increases(length + shift, digits);
    }
    assert(m * pow2(shift) < pow2(length) * pow2(shift)) by (nonlinear_arith)
        requires
            m < pow2(length),
            pow2(shift) > 0,
    ;
}

proof fn lemma_rounded_fits(m: nat, length: nat, shift: nat, digits: nat)
    requires
        m < pow2(length),
        length <= shift + digits,
    ensures
        rounded_quotient(m, shift) <= pow2(digits),
{
    lemma_pow2_adds(shift, digits);
    lemma_pow2_pos(shift);
    if length < shift + digits {
        lemma_pow2_strictly_increases(length, shift + digits);
    }
    let unit = pow2(shift);
    assert(m / unit < pow2(digits)) by (nonlinear_arith)
        requires
            m < unit * pow2(digits),
            unit > 0,
    ;
}

proof fn lemma_div_twice(n: int, a: int, b: int)
    requires
        0 <= n,
        0 < a,
        0 < b,
    ensures
        (n / a) / b == n / (a * b),
{
    vstd::arithmetic::div_mod::lemma_div_denominator(n, a, b);
}

proof fn lemma_scaled_is_large(m: nat, e: int)
    requires
        m >= 1,
        e >= 64,
    ensures
        scaled(m, e) >= 0x1_0000_0000_0000_0000,
{
    lemma2_to64();
    if e > 64 {
        lemma_pow2_strictly_increases(64, e as nat);
    }
    assert(m * pow2(e as nat) >= pow2(e as nat)) by (nonlinear_arith)
        requires
            m >= 1,
    ;
}

proof fn lemma_scaled_is_zero(m: nat, e: int)
    requires
        m < 0x1_0000_0000_0000_0000,
        e <= -64,
    ensures
        scaled(m, e) == 0,
{
    lemma2_to64();
    if e < -64 {
        lemma_pow2_strictly_increases(64, (-e) as nat);
    }
    vstd::arithmetic::div_mod::lemma_basic_div(m as int, pow2((-e) as nat) as int);
}

} // verus!
