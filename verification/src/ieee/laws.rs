//! What holds of the numbers that the formats hold and of rounding to them.

use vstd::prelude::*;
use vstd::arithmetic::power2::{lemma2_to64, lemma2_to64_rest, lemma_pow2_adds, lemma_pow2_pos,
    lemma_pow2_strictly_increases, pow2};
use crate::ieee::{Format, bit_length, clamped, exponent, exponent_field, float_to_float_spec,
    float_to_int_spec, fraction, infinity, int_to_float_spec, is_finite, is_infinite, is_nan,
    is_negative, lemma_bit_length_bounds, lemma_div_twice, lemma_rounded_fits, lemma_scaled_fits,
    pack, quantum, rounded_quotient, rounded_significand, scaled, significand};

verus! {

/// The distance between two integers.
pub open spec fn distance(a: int, b: int) -> int {
    if a < b {
        b - a
    } else {
        a - b
    }
}

/// Rounding is to the nearest multiple of the unit: no multiple of `2^shift`
/// is nearer to `n` than the rounded quotient taken `2^shift` times, which is
/// off by at most half a unit; and where another multiple is as near, the
/// rounded quotient is the even one.
pub proof fn law_rounding_is_nearest(n: nat, shift: nat, k: nat)
    ensures
        ({
            let unit = pow2(shift) as int;
            let rounded = rounded_quotient(n, shift);
            &&& 2 * distance(rounded * unit, n as int) <= unit
            &&& distance(rounded * unit, n as int) <= distance(k * unit, n as int)
            &&& k != rounded && distance(rounded * unit, n as int) == distance(k * unit, n as int)
                ==> rounded % 2 == 0
        }),
{
    let unit = pow2(shift) as int;
    lemma_pow2_pos(shift);
    vstd::arithmetic::div_mod::lemma_fundamental_div_mod(n as int, unit);
    vstd::arithmetic::div_mod::lemma_mod_bound(n as int, unit);
    let quotient = n as int / unit;
    let rest = n as int % unit;
    let rounded = rounded_quotient(n, shift) as int;
    assert((quotient + 1) * unit == quotient * unit + unit) by (nonlinear_arith);
    assert(unit * quotient == quotient * unit) by (nonlinear_arith);
    assert(rounded == quotient || rounded == quotient + 1);
    if k >= rounded + 1 {
        assert(k * unit >= (rounded + 1) * unit) by (nonlinear_arith)
            requires
                k >= rounded + 1,
                unit > 0,
        ;
        assert((rounded + 1) * unit == rounded * unit + unit) by (nonlinear_arith);
    } else if k + 1 <= rounded {
        assert(k * unit <= (rounded - 1) * unit) by (nonlinear_arith)
            requires
                k <= rounded - 1,
                unit > 0,
        ;
        assert((rounded - 1) * unit == rounded * unit - unit) by (nonlinear_arith);
    }
}

/// What a pattern made by [`pack`] is read as, where the quantum is not
/// beyond the format: it has the sign given and is finite with the rounded
/// significand at the quantum; or, where rounding has carried the significand
/// to the next power of two, finite with the least normal significand one
/// exponent higher, and the infinity where there is no higher exponent.
pub proof fn law_pack_reads_back(format: Format, negative: bool, m: nat, e: int)
    requires
        m > 0,
        quantum(format, m, e) <= format.greatest_exponent(),
    ensures
        ({
            let bits = pack(format, negative, m, e);
            let q = quantum(format, m, e);
            let n = rounded_significand(format, m, e);
            let limit = format.fraction_modulus();
            &&& format.has(bits)
            &&& is_negative(format, bits) == negative
            &&& n <= 2 * limit
            &&& n < 2 * limit ==> is_finite(format, bits) && significand(format, bits) == n
                && exponent(format, bits) == q
            &&& n == 2 * limit && q < format.greatest_exponent() ==> is_finite(format, bits)
                && significand(format, bits) == limit && exponent(format, bits) == q + 1
            &&& n == 2 * limit && q == format.greatest_exponent() ==> bits == infinity(
                format,
                negative,
            ) && is_infinite(format, bits)
        }),
{
    let bits = pack(format, negative, m, e);
    let q = quantum(format, m, e);
    let n = rounded_significand(format, m, e);
    let limit = format.fraction_modulus();
    let least = format.least_exponent();
    let length = bit_length(m);
    let digits = format.fraction_bits() + 1;
    let natural = length + e - digits;
    lemma2_to64();
    lemma2_to64_rest();
    lemma_bit_length_bounds(m);
    lemma_pow2_adds(format.fraction_bits(), 1);
    assert(pow2(digits) == 2 * limit);
    assert(pow2(format.fraction_bits()) == limit);
    if e >= q {
        let k = (e - q) as nat;
        lemma_scaled_fits(m, length, k, digits);
        if q == natural {
            lemma_pow2_adds((length - 1) as nat, k);
            assert(m * pow2(k) >= pow2((length - 1) as nat) * pow2(k)) by (nonlinear_arith)
                requires
                    m >= pow2((length - 1) as nat),
            ;
        }
    } else {
        let k = (q - e) as nat;
        lemma_rounded_fits(m, length, k, digits);
        if q == natural {
            lemma_pow2_adds(format.fraction_bits(), k);
            lemma_pow2_pos(k);
            vstd::arithmetic::div_mod::lemma_div_by_multiple(limit as int, pow2(k) as int);
            vstd::arithmetic::div_mod::lemma_div_is_ordered(
                (limit * pow2(k)) as int,
                m as int,
                pow2(k) as int,
            );
        }
    }
    assert(n <= 2 * limit);
    assert(q > least ==> n >= limit);
    let sign: int = if negative {
        format.sign_weight() as int
    } else {
        0
    };
    let steps = q - least;
    assert(bits == sign + steps * limit + n);
    if n < limit {
        assert(steps == 0);
        assert(bits == sign + 0 * limit + n) by (nonlinear_arith)
            requires
                bits == sign + steps * limit + n,
                steps == 0,
        ;
        lemma_fields_of(format, negative, 0, n);
    } else if n < 2 * limit {
        assert(bits == sign + (steps + 1) * limit + (n - limit)) by (nonlinear_arith)
            requires
                bits == sign + steps * limit + n,
        ;
        lemma_fields_of(format, negative, steps + 1, (n - limit) as nat);
    } else {
        assert(bits == sign + (steps + 2) * limit + 0) by (nonlinear_arith)
            requires
                bits == sign + steps * limit + n,
                n == 2 * limit,
        ;
        lemma_fields_of(format, negative, steps + 2, 0);
    }
}

/// An integer that the significand of a format has room for is cast to the
/// format without loss: the pattern it becomes is finite and, cast to an
/// integer type, gives the integer again, or the bound of the type that the
/// integer lies beyond.
pub proof fn law_integer_round_trip(format: Format, v: int, low: int, high: int)
    requires
        -2 * format.fraction_modulus() < v < 2 * format.fraction_modulus(),
    ensures
        format.has(int_to_float_spec(format, v)),
        is_finite(format, int_to_float_spec(format, v)),
        float_to_int_spec(format, int_to_float_spec(format, v), low, high) == clamped(v, low, high),
{
    let m = (if v < 0 {
        -v
    } else {
        v
    }) as nat;
    let bits = int_to_float_spec(format, v);
    let limit = format.fraction_modulus();
    if m == 0 {
        assert(bits == 0);
        assert(scaled(0, format.least_exponent()) == 0) by {
            lemma_pow2_pos((-format.least_exponent()) as nat);
        }
    } else {
        lemma2_to64();
        lemma2_to64_rest();
        lemma_bit_length_bounds(m);
        let length = bit_length(m);
        let digits = format.fraction_bits() + 1;
        assert(pow2(digits) == 2 * limit) by {
            lemma_pow2_adds(format.fraction_bits(), 1);
        }
        if length > digits {
            if length - 1 > digits {
                lemma_pow2_strictly_increases(digits, (length - 1) as nat);
            }
        }
        assert(length <= digits);
        let q = length - digits;
        assert(quantum(format, m, 0) == q);
        let k = (-q) as nat;
        let n = m * pow2(k);
        lemma_pow2_pos(k);
        assert(n < 2 * limit) by {
            lemma_scaled_fits(m, length, k, digits);
        }
        assert(n >= limit) by {
            lemma_pow2_adds((length - 1) as nat, k);
            assert(m * pow2(k) >= pow2((length - 1) as nat) * pow2(k)) by (nonlinear_arith)
                requires
                    m >= pow2((length - 1) as nat),
            ;
        }
        let field = q - format.least_exponent() + 1;
        let sign: int = if v < 0 {
            format.sign_weight() as int
        } else {
            0
        };
        assert(bits == sign + field * limit + (n - limit)) by (nonlinear_arith)
            requires
                bits == sign + (field - 1) * limit + n,
        ;
        lemma_fields_of(format, v < 0, field, (n - limit) as nat);
        assert(scaled(n, q) == m) by {
            if q == 0 {
                assert(n * 1 == n && m * 1 == m) by (nonlinear_arith);
            } else {
                vstd::arithmetic::div_mod::lemma_div_by_multiple(m as int, pow2(k) as int);
            }
        }
    }
}

/// `m * 2^e` in units of `2^base`, for a base that is not above `e`.
pub open spec fn at_scale(m: nat, e: int, base: int) -> int {
    (m * pow2((e - base) as nat)) as int
}

/// The least of three integers.
pub open spec fn least_of(a: int, b: int, c: int) -> int {
    if a <= b && a <= c {
        a
    } else if b <= c {
        b
    } else {
        c
    }
}

/// Rounding is to the nearest number of the format: where `m * 2^e` is
/// rounded to the significand `n` at the quantum `q`, no finite number that
/// the format holds is nearer in magnitude to `m * 2^e` than `n * 2^q`. The
/// three magnitudes are compared in units of two to the power of their least
/// exponent.
pub proof fn law_pack_is_nearest(format: Format, m: nat, e: int, other: nat)
    requires
        m > 0,
        quantum(format, m, e) <= format.greatest_exponent(),
        is_finite(format, other),
    ensures
        ({
            let q = quantum(format, m, e);
            let n = rounded_significand(format, m, e);
            let held = significand(format, other);
            let at = exponent(format, other);
            let base = least_of(e, q, at);
            distance(at_scale(n, q, base), at_scale(m, e, base)) <= distance(
                at_scale(held, at, base),
                at_scale(m, e, base),
            )
        }),
{
    let q = quantum(format, m, e);
    let n = rounded_significand(format, m, e);
    let held = significand(format, other);
    let at = exponent(format, other);
    let base = least_of(e, q, at);
    let limit = format.fraction_modulus();
    let length = bit_length(m);
    lemma2_to64();
    lemma2_to64_rest();
    lemma_bit_length_bounds(m);
    assert(pow2(format.fraction_bits()) == limit);
    assert(held < 2 * limit);
    assert(at >= format.least_exponent());
    let x = at_scale(m, e, base);
    let rounded = at_scale(n, q, base);
    let value = at_scale(held, at, base);
    if e >= q {
        // Nothing is rounded off: the number is held as it is.
        lemma_rescaled(m, (e - q) as nat, (q - base) as nat);
        assert(rounded == x);
    } else if at >= q {
        // The other number is a multiple of the unit of the rounding.
        let k = held * pow2((at - q) as nat);
        lemma_rescaled(held, (at - q) as nat, (q - e) as nat);
        law_rounding_is_nearest(m, (q - e) as nat, k);
        assert(x == m) by (nonlinear_arith)
            requires
                x == m * pow2(0),
                pow2(0) == 1,
        ;
    }
    if at < q {
        // The other number lies below the least number of the quantum, and
        // the number that is rounded does not.
        let f = format.fraction_bits();
        let floor = at_scale(limit, q, base);
        assert(q == length + e - (f + 1));
        lemma_pow2_adds(f, (q - base) as nat);
        lemma_pow2_adds((length - 1) as nat, (e - base) as nat);
        lemma_pow2_pos((e - base) as nat);
        lemma_pow2_pos((q - base) as nat);
        lemma_pow2_pos((at - base) as nat);
        assert(x >= floor) by (nonlinear_arith)
            requires
                x == m * pow2((e - base) as nat),
                m >= pow2((length - 1) as nat),
                floor == pow2((length - 1) as nat) * pow2((e - base) as nat),
        ;
        lemma_pow2_adds((at - base) as nat, 1);
        if at + 1 < q {
            lemma_pow2_strictly_increases((at + 1 - base) as nat, (q - base) as nat);
        }
        assert(value < floor) by (nonlinear_arith)
            requires
                value == held * pow2((at - base) as nat),
                held < 2 * limit,
                pow2((at - base) as nat) > 0,
                floor == limit * pow2((q - base) as nat),
                2 * pow2((at - base) as nat) <= pow2((q - base) as nat),
                limit > 0,
        ;
        if e < q {
            let unit = pow2((q - e) as nat) as int;
            let scale = pow2((e - base) as nat) as int;
            law_rounding_is_nearest(m, (q - e) as nat, limit);
            lemma_rescaled(n, (q - e) as nat, (e - base) as nat);
            lemma_rescaled(limit, (q - e) as nat, (e - base) as nat);
            lemma_distance_scales(n * unit, m as int, scale);
            lemma_distance_scales(limit * unit, m as int, scale);
            assert(distance(n * unit, m as int) * scale <= distance(limit * unit, m as int)
                * scale) by (nonlinear_arith)
                requires
                    distance(n * unit, m as int) <= distance(limit * unit, m as int),
                    scale >= 0,
            ;
        }
    }
}

/// Taking a number `2^a` times and then `2^b` times is taking it `2^(a+b)`
/// times.
proof fn lemma_rescaled(m: nat, a: nat, b: nat)
    ensures
        m * pow2(a) * pow2(b) == m * pow2(a + b),
{
    lemma_pow2_adds(a, b);
    assert(m * pow2(a) * pow2(b) == m * (pow2(a) * pow2(b))) by (nonlinear_arith);
}

/// The distance between two numbers taken `c` times is `c` times their
/// distance.
proof fn lemma_distance_scales(a: int, b: int, c: int)
    requires
        c >= 0,
    ensures
        distance(a * c, b * c) == distance(a, b) * c,
{
    assert(distance(a * c, b * c) == distance(a, b) * c) by (nonlinear_arith)
        requires
            c >= 0,
            distance(a * c, b * c) == (if a * c < b * c {
                b * c - a * c
            } else {
                a * c - b * c
            }),
            distance(a, b) == (if a < b {
                b - a
            } else {
                a - b
            }),
    ;
}

/// The pattern of an infinity is a pattern of the format, is read as an
/// infinity, and has the sign given.
pub proof fn law_infinity_is_a_pattern(format: Format, negative: bool)
    ensures
        format.has(infinity(format, negative)),
        is_infinite(format, infinity(format, negative)),
        is_negative(format, infinity(format, negative)) == negative,
{
    lemma_fields_of(format, negative, format.exponent_modulus() - 1, 0);
}

/// A number of the narrower format is cast to the wider one without loss:
/// the pattern it becomes is finite, has its sign, and is read as the same
/// number, the significand taken as many times two as the exponent is lower.
pub proof fn law_widening_is_exact(bits: nat)
    requires
        Format::Single.has(bits),
        is_finite(Format::Single, bits),
    ensures
        ({
            let wide = float_to_float_spec(Format::Single, bits, Format::Double);
            let m = significand(Format::Single, bits);
            let e = exponent(Format::Single, bits);
            let q = exponent(Format::Double, wide);
            &&& Format::Double.has(wide)
            &&& is_finite(Format::Double, wide)
            &&& is_negative(Format::Double, wide) == is_negative(Format::Single, bits)
            &&& m == 0 ==> significand(Format::Double, wide) == 0
            &&& m > 0 ==> q <= e && significand(Format::Double, wide) == m * pow2((e - q) as nat)
        }),
{
    let narrow = Format::Single;
    let wider = Format::Double;
    let negative = is_negative(narrow, bits);
    let m = significand(narrow, bits);
    let e = exponent(narrow, bits);
    lemma2_to64();
    lemma2_to64_rest();
    if m == 0 {
        lemma_fields_of(wider, negative, 0, 0);
    } else {
        lemma_widened(m, e);
        law_pack_reads_back(wider, negative, m, e);
    }
}

/// A number of the narrower format, or an infinity, cast to the wider format
/// and back is itself.
pub proof fn law_widening_round_trip(bits: nat)
    requires
        Format::Single.has(bits),
        !is_nan(Format::Single, bits),
    ensures
        float_to_float_spec(
            Format::Double,
            float_to_float_spec(Format::Single, bits, Format::Double),
            Format::Single,
        ) == bits,
{
    let narrow = Format::Single;
    let wider = Format::Double;
    let negative = is_negative(narrow, bits);
    let wide = float_to_float_spec(narrow, bits, wider);
    lemma2_to64();
    lemma2_to64_rest();
    lemma_pattern_is_sum(narrow, bits);
    if is_infinite(narrow, bits) {
        lemma_fields_of(wider, negative, wider.exponent_modulus() - 1, 0);
    } else {
        let m = significand(narrow, bits);
        let e = exponent(narrow, bits);
        law_widening_is_exact(bits);
        if m == 0 {
            lemma_fields_of(wider, negative, 0, 0);
        } else {
            lemma_widened(m, e);
            let q = quantum(wider, m, e);
            let k = (e - q) as nat;
            let n = m * pow2(k);
            law_pack_reads_back(wider, negative, m, e);
            assert(significand(wider, wide) == n);
            assert(exponent(wider, wide) == q);
            // The way back: the significand has 53 bits, so the quantum of
            // the narrower format is the exponent the number had.
            lemma_bit_length_bounds(n);
            lemma_bit_length_is(n, 53);
            lemma_bit_length_bounds(m);
            if exponent_field(narrow, bits) != 0 {
                lemma_bit_length_is(m, 24);
            } else {
                if bit_length(m) > 23 {
                    if bit_length(m) > 24 {
                        lemma_pow2_strictly_increases(23, (bit_length(m) - 1) as nat);
                    }
                }
                assert(bit_length(m) <= 23);
            }
            assert(quantum(narrow, n, q) == e);
            lemma_pow2_pos(k);
            vstd::arithmetic::div_mod::lemma_div_by_multiple(m as int, pow2(k) as int);
            vstd::arithmetic::div_mod::lemma_mod_multiples_basic(m as int, pow2(k) as int);
            assert(rounded_quotient(n, k) == m);
            assert(rounded_significand(narrow, n, q) == m);
        }
    }
}

/// The exponent at which the wider format holds a number of the narrower
/// one leaves its significand whole.
proof fn lemma_widened(m: nat, e: int)
    requires
        0 < m < 0x100_0000,
        -149 <= e <= 104,
    ensures
        ({
            let q = quantum(Format::Double, m, e);
            let n = m * pow2((e - q) as nat);
            &&& q == bit_length(m) + e - 53
            &&& Format::Double.least_exponent() < q <= Format::Double.greatest_exponent()
            &&& q < e
            &&& rounded_significand(Format::Double, m, e) == n
            &&& 0x10_0000_0000_0000 <= n < 0x20_0000_0000_0000
        }),
{
    lemma2_to64();
    lemma2_to64_rest();
    lemma_bit_length_bounds(m);
    let length = bit_length(m);
    if length > 24 {
        if length > 25 {
            lemma_pow2_strictly_increases(24, (length - 1) as nat);
        }
    }
    assert(1 <= length <= 24);
    let q = length + e - 53;
    let k = (e - q) as nat;
    lemma_scaled_fits(m, length, k, 53);
    lemma_pow2_adds((length - 1) as nat, k);
    assert(m * pow2(k) >= pow2((length - 1) as nat) * pow2(k)) by (nonlinear_arith)
        requires
            m >= pow2((length - 1) as nat),
    ;
}

/// The number of bits of a number between two powers of two.
proof fn lemma_bit_length_is(n: nat, length: nat)
    requires
        length >= 1,
        pow2((length - 1) as nat) <= n < pow2(length),
    ensures
        bit_length(n) == length,
{
    lemma_bit_length_bounds(n);
    lemma_pow2_pos((length - 1) as nat);
    let found = bit_length(n);
    if found < length {
        if found < length - 1 {
            lemma_pow2_strictly_increases(found, (length - 1) as nat);
        }
    } else if found > length {
        if found - 1 > length {
            lemma_pow2_strictly_increases(length, (found - 1) as nat);
        }
    }
}

/// A pattern is the sum of its fields, each at its weight.
proof fn lemma_pattern_is_sum(format: Format, bits: nat)
    requires
        format.has(bits),
    ensures
        bits == (if is_negative(format, bits) {
            format.sign_weight()
        } else {
            0
        }) + exponent_field(format, bits) * format.fraction_modulus() + fraction(format, bits),
{
    let limit = format.fraction_modulus() as int;
    let fields = format.exponent_modulus() as int;
    let upper = bits as int / limit;
    vstd::arithmetic::div_mod::lemma_fundamental_div_mod(bits as int, limit);
    vstd::arithmetic::div_mod::lemma_fundamental_div_mod(upper, fields);
    lemma_div_twice(bits as int, limit, fields);
    let top = upper / fields;
    assert(0 <= top < 2) by {
        vstd::arithmetic::div_mod::lemma_div_pos_is_pos(bits as int, limit * fields);
        if top >= 2 {
            assert(bits >= 2 * (limit * fields)) by (nonlinear_arith)
                requires
                    bits as int / (limit * fields) >= 2,
                    limit * fields > 0,
                    bits >= 0,
            ;
        }
    }
    assert(limit * (fields * top + upper % fields) == top * (limit * fields) + (upper % fields)
        * limit) by (nonlinear_arith);
}

/// The fields of a pattern put together from a sign, an exponent field and a
/// fraction are those it was put together from.
proof fn lemma_fields_of(format: Format, negative: bool, field: int, fraction: nat)
    requires
        0 <= field < format.exponent_modulus(),
        fraction < format.fraction_modulus(),
    ensures
        ({
            let sign: int = if negative {
                format.sign_weight() as int
            } else {
                0
            };
            let bits = (sign + field * format.fraction_modulus() + fraction) as nat;
            &&& format.has(bits)
            &&& self::fraction(format, bits) == fraction
            &&& exponent_field(format, bits) == field
            &&& is_negative(format, bits) == negative
        }),
{
    let limit = format.fraction_modulus() as int;
    let fields = format.exponent_modulus() as int;
    let sign: int = if negative {
        format.sign_weight() as int
    } else {
        0
    };
    let high: int = if negative {
        fields
    } else {
        0
    };
    let upper = high + field;
    let bits = sign + field * limit + fraction;
    assert(bits == upper * limit + fraction) by (nonlinear_arith)
        requires
            bits == sign + field * limit + fraction,
            sign == high * limit,
            upper == high + field,
    ;
    assert(0 <= upper < 2 * fields);
    vstd::arithmetic::div_mod::lemma_fundamental_div_mod_converse(
        bits,
        limit,
        upper,
        fraction as int,
    );
    let top: int = if negative {
        1
    } else {
        0
    };
    vstd::arithmetic::div_mod::lemma_fundamental_div_mod_converse(upper, fields, top, field);
    lemma_div_twice(bits, limit, fields);
    assert(bits < 2 * fields * limit) by (nonlinear_arith)
        requires
            bits == upper * limit + fraction,
            upper <= 2 * fields - 1,
            0 <= fraction < limit,
    ;
}

} // verus!
