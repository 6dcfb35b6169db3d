//! Numeric values of fixed width and the casts between them.
//!
//! An integer is held in its native representation. A floating-point number is
//! held as its IEEE 754 bit pattern, so that every rule about it is a rule about
//! integers: see [`crate::ieee`] for how a pattern is read.

use vstd::prelude::*;
use crate::ieee::{Format, float_to_float, float_to_float_spec, float_to_int, float_to_int_spec,
    int_to_float, int_to_float_spec, is_finite, is_finite_pattern, is_infinite, is_nan,
    is_negative, truncated};
use crate::ieee::laws::{law_infinity_is_a_pattern, law_integer_round_trip, law_widening_is_exact,
    law_widening_round_trip};

verus! {

/// The fixed-width numeric types a value can have or be cast to.
#[derive(Clone, Copy, Debug, PartialEq, Eq, Structural)]
pub enum NumericType {
    I8,
    I16,
    I32,
    I64,
    U8,
    U16,
    U32,
    U64,
    F32,
    F64,
}

/// A numeric value together with its type.
///
/// `F32` and `F64` hold the bit pattern of the number.
#[derive(Clone, Copy, Debug, PartialEq, Eq, Structural)]
pub enum NumericValue {
    I8(i8),
    I16(i16),
    I32(i32),
    I64(i64),
    U8(u8),
    U16(u16),
    U32(u32),
    U64(u64),
    F32(u32),
    F64(u64),
}

impl NumericType {
    /// Whether the type is one of the two binary floating formats.
    pub open spec fn is_float(self) -> bool {
        self == NumericType::F32 || self == NumericType::F64
    }

    /// Whether the type is a two's-complement signed integer.
    pub open spec fn is_signed(self) -> bool {
        self == NumericType::I8 || self == NumericType::I16 || self == NumericType::I32 || self
            == NumericType::I64
    }

    /// The number of bits a value of the type occupies.
    pub open spec fn width(self) -> nat {
        match self {
            NumericType::I8 | NumericType::U8 => 8,
            NumericType::I16 | NumericType::U16 => 16,
            NumericType::I32 | NumericType::U32 | NumericType::F32 => 32,
            NumericType::I64 | NumericType::U64 | NumericType::F64 => 64,
        }
    }

    /// Two to the power of the width.
    pub open spec fn modulus(self) -> int {
        match self {
            NumericType::I8 | NumericType::U8 => 0x100,
            NumericType::I16 | NumericType::U16 => 0x1_0000,
            NumericType::I32 | NumericType::U32 | NumericType::F32 => 0x1_0000_0000,
            NumericType::I64 | NumericType::U64 | NumericType::F64 => 0x1_0000_0000_0000_0000,
        }
    }

    /// The least value of an integer type; for a floating type the least bit
    /// pattern.
    pub open spec fn min_value(self) -> int {
        if self.is_signed() {
            -(self.modulus() / 2)
        } else {
            0
        }
    }

    /// The greatest value of an integer type; for a floating type the
    /// greatest bit pattern.
    pub open spec fn max_value(self) -> int {
        if self.is_signed() {
            self.modulus() / 2 - 1
        } else {
            self.modulus() - 1
        }
    }

    /// Whether the integer `n` is a value of this integer type.
    pub open spec fn holds(self, n: int) -> bool {
        !self.is_float() && self.min_value() <= n <= self.max_value()
    }

    /// The floating format of a floating type; the wider one for another
    /// type.
    pub open spec fn format(self) -> Format {
        if self == NumericType::F32 {
            Format::Single
        } else {
            Format::Double
        }
    }

    /// The floating format of a floating type.
    pub fn layout(self) -> (r: Format)
        ensures
            r == self.format(),
            self.is_float() ==> r.sign_weight() * 2 == self.modulus(),
    {
        match self {
            NumericType::F32 => Format::Single,
            _ => Format::Double,
        }
    }

    /// Reports whether the type is a floating format.
    pub fn float(self) -> (r: bool)
        ensures
            r == self.is_float(),
    {
        match self {
            NumericType::F32 | NumericType::F64 => true,
            _ => false,
        }
    }

    /// Reports whether the type is a signed integer.
    pub fn signed(self) -> (r: bool)
        ensures
            r == self.is_signed(),
    {
        match self {
            NumericType::I8 | NumericType::I16 | NumericType::I32 | NumericType::I64 => true,
            _ => false,
        }
    }

    /// The number of bits of the type.
    pub fn bits(self) -> (r: u32)
        ensures
            r == self.width(),
    {
        match self {
            NumericType::I8 | NumericType::U8 => 8,
            NumericType::I16 | NumericType::U16 => 16,
            NumericType::I32 | NumericType::U32 | NumericType::F32 => 32,
            NumericType::I64 | NumericType::U64 | NumericType::F64 => 64,
        }
    }

    /// The least value of an integer type; for a floating type the least bit
    /// pattern.
    pub fn min(self) -> (r: i128)
        ensures
            r == self.min_value(),
    {
        match self {
            NumericType::I8 => -0x80,
            NumericType::I16 => -0x8000,
            NumericType::I32 => -0x8000_0000,
            NumericType::I64 => -0x8000_0000_0000_0000,
            _ => 0,
        }
    }

    /// The greatest value of an integer type; for a floating type the
    /// greatest bit pattern.
    pub fn max(self) -> (r: i128)
        ensures
            r == self.max_value(),
    {
        match self {
            NumericType::I8 => 0x7f,
            NumericType::I16 => 0x7fff,
            NumericType::I32 => 0x7fff_ffff,
            NumericType::I64 => 0x7fff_ffff_ffff_ffff,
            NumericType::U8 => 0xff,
            NumericType::U16 => 0xffff,
            NumericType::U32 | NumericType::F32 => 0xffff_ffff,
            NumericType::U64 | NumericType::F64 => 0xffff_ffff_ffff_ffff,
        }
    }
}

/// The integer that the low-order `width` bits of `n` denote under the
/// signedness of `target`: `n` modulo `2^width`, taken as negative when the
/// target is signed and the top bit is set.
pub open spec fn wrap(n: int, target: NumericType) -> int {
    let low = n % target.modulus();
    if target.is_signed() && low >= target.modulus() / 2 {
        low - target.modulus()
    } else {
        low
    }
}

impl NumericValue {
    /// The type of the value.
    pub open spec fn type_of(self) -> NumericType {
        match self {
            NumericValue::I8(_) => NumericType::I8,
            NumericValue::I16(_) => NumericType::I16,
            NumericValue::I32(_) => NumericType::I32,
            NumericValue::I64(_) => NumericType::I64,
            NumericValue::U8(_) => NumericType::U8,
            NumericValue::U16(_) => NumericType::U16,
            NumericValue::U32(_) => NumericType::U32,
            NumericValue::U64(_) => NumericType::U64,
            NumericValue::F32(_) => NumericType::F32,
            NumericValue::F64(_) => NumericType::F64,
        }
    }

    /// The integer an integer value holds; for a floating value, its bit
    /// pattern read as an unsigned integer.
    pub open spec fn payload(self) -> int {
        match self {
            NumericValue::I8(v) => v as int,
            NumericValue::I16(v) => v as int,
            NumericValue::I32(v) => v as int,
            NumericValue::I64(v) => v as int,
            NumericValue::U8(v) => v as int,
            NumericValue::U16(v) => v as int,
            NumericValue::U32(v) => v as int,
            NumericValue::U64(v) => v as int,
            NumericValue::F32(b) => b as int,
            NumericValue::F64(b) => b as int,
        }
    }

    /// The value of type `target` whose payload is `n`.
    pub open spec fn with_payload(target: NumericType, n: int) -> NumericValue {
        match target {
            NumericType::I8 => NumericValue::I8(n as i8),
            NumericType::I16 => NumericValue::I16(n as i16),
            NumericType::I32 => NumericValue::I32(n as i32),
            NumericType::I64 => NumericValue::I64(n as i64),
            NumericType::U8 => NumericValue::U8(n as u8),
            NumericType::U16 => NumericValue::U16(n as u16),
            NumericType::U32 => NumericValue::U32(n as u32),
            NumericType::U64 => NumericValue::U64(n as u64),
            NumericType::F32 => NumericValue::F32(n as u32),
            NumericType::F64 => NumericValue::F64(n as u64),
        }
    }

    /// The type of the value.
    pub fn kind(self) -> (r: NumericType)
        ensures
            r == self.type_of(),
    {
        match self {
            NumericValue::I8(_) => NumericType::I8,
            NumericValue::I16(_) => NumericType::I16,
            NumericValue::I32(_) => NumericType::I32,
            NumericValue::I64(_) => NumericType::I64,
            NumericValue::U8(_) => NumericType::U8,
            NumericValue::U16(_) => NumericType::U16,
            NumericValue::U32(_) => NumericType::U32,
            NumericValue::U64(_) => NumericType::U64,
            NumericValue::F32(_) => NumericType::F32,
            NumericValue::F64(_) => NumericType::F64,
        }
    }

    /// The payload, widened without loss.
    pub fn widen(self) -> (r: i128)
        ensures
            r == self.payload(),
            self.type_of().is_float() ==> 0 <= r < self.type_of().modulus(),
            !self.type_of().is_float() ==> self.type_of().holds(r as int),
    {
        match self {
            NumericValue::I8(v) => v as i128,
            NumericValue::I16(v) => v as i128,
            NumericValue::I32(v) => v as i128,
            NumericValue::I64(v) => v as i128,
            NumericValue::U8(v) => v as i128,
            NumericValue::U16(v) => v as i128,
            NumericValue::U32(v) => v as i128,
            NumericValue::U64(v) => v as i128,
            NumericValue::F32(b) => b as i128,
            NumericValue::F64(b) => b as i128,
        }
    }

    /// The floating value of type `target` with the bit pattern `bits`.
    pub(crate) fn from_bits(target: NumericType, bits: u64) -> (r: NumericValue)
        requires
            target.is_float(),
            bits < target.modulus(),
        ensures
            r == NumericValue::with_payload(target, bits as int),
            r.type_of() == target,
            r.payload() == bits,
    {
        match target {
            NumericType::F32 => NumericValue::F32(bits as u32),
            _ => NumericValue::F64(bits),
        }
    }

    /// The value of type `target` that keeps the low-order bits of `n` and
    /// reads them under the target's signedness, or as the bit pattern of a
    /// floating type.
    pub fn wrapping(n: i128, target: NumericType) -> (r: NumericValue)
        ensures
            r == NumericValue::with_payload(target, wrap(n as int, target)),
            r.type_of() == target,
            r.payload() == wrap(n as int, target),
            target.min_value() <= r.payload() <= target.max_value(),
    {
        match target {
            NumericType::I8 => {
                let r: i8 = #[verifier::truncate] (n as i8);
                assert((n as i8) as int == (if (n as int) % 0x100 >= 0x80 {
                    (n as int) % 0x100 - 0x100
                } else {
                    (n as int) % 0x100
                })) by (bit_vector);
                NumericValue::I8(r)
            },
            NumericType::I16 => {
                let r: i16 = #[verifier::truncate] (n as i16);
                assert((n as i16) as int == (if (n as int) % 0x1_0000 >= 0x8000 {
                    (n as int) % 0x1_0000 - 0x1_0000
                } else {
                    (n as int) % 0x1_0000
                })) by (bit_vector);
                NumericValue::I16(r)
            },
            NumericType::I32 => {
                let r: i32 = #[verifier::truncate] (n as i32);
                assert((n as i32) as int == (if (n as int) % 0x1_0000_0000 >= 0x8000_0000 {
                    (n as int) % 0x1_0000_0000 - 0x1_0000_0000
                } else {
                    (n as int) % 0x1_0000_0000
                })) by (bit_vector);
                NumericValue::I32(r)
            },
            NumericType::I64 => {
                let r: i64 = #[verifier::truncate] (n as i64);
                assert((n as i64) as int == (if (n as int) % 0x1_0000_0000_0000_0000
                    >= 0x8000_0000_0000_0000 {
                    (n as int) % 0x1_0000_0000_0000_0000 - 0x1_0000_0000_0000_0000
                } else {
                    (n as int) % 0x1_0000_0000_0000_0000
                })) by (bit_vector);
                NumericValue::I64(r)
            },
            NumericType::U8 => {
                let r: u8 = #[verifier::truncate] (n as u8);
                assert((n as u8) as int == (n as int) % 0x100) by (bit_vector);
                NumericValue::U8(r)
            },
            NumericType::U16 => {
                let r: u16 = #[verifier::truncate] (n as u16);
                assert((n as u16) as int == (n as int) % 0x1_0000) by (bit_vector);
                NumericValue::U16(r)
            },
            NumericType::U32 => {
                let r: u32 = #[verifier::truncate] (n as u32);
                assert((n as u32) as int == (n as int) % 0x1_0000_0000) by (bit_vector);
                NumericValue::U32(r)
            },
            NumericType::U64 => {
                let r: u64 = #[verifier::truncate] (n as u64);
                assert((n as u64) as int == (n as int) % 0x1_0000_0000_0000_0000)
                    by (bit_vector);
                NumericValue::U64(r)
            },
            NumericType::F32 => {
                let r: u32 = #[verifier::truncate] (n as u32);
                assert((n as u32) as int == (n as int) % 0x1_0000_0000) by (bit_vector);
                NumericValue::F32(r)
            },
            NumericType::F64 => {
                let r: u64 = #[verifier::truncate] (n as u64);
                assert((n as u64) as int == (n as int) % 0x1_0000_0000_0000_0000)
                    by (bit_vector);
                NumericValue::F64(r)
            },
        }
    }
}

/// What [`cast`] returns.
///
/// Between integer types the low-order bits are kept and read under the
/// target's signedness. From a floating format to an integer type the number
/// is truncated toward zero and brought into the target's range, and what is
/// not a number becomes zero. From an integer to a floating format the nearest
/// number of the format is taken, an exact tie going to the even significand.
/// Between the two floating formats the nearest number of the target is taken.
pub open spec fn cast_spec(value: NumericValue, target: NumericType) -> NumericValue {
    let source = value.type_of();
    if source.is_float() {
        if target.is_float() {
            let pattern = value.payload() as nat;
            let bits = float_to_float_spec(source.format(), pattern, target.format());
            NumericValue::with_payload(target, bits as int)
        } else {
            NumericValue::with_payload(
                target,
                float_to_int_spec(
                    source.format(),
                    value.payload() as nat,
                    target.min_value(),
                    target.max_value(),
                ),
            )
        }
    } else {
        if target.is_float() {
            NumericValue::with_payload(
                target,
                int_to_float_spec(target.format(), value.payload()) as int,
            )
        } else {
            NumericValue::with_payload(target, wrap(value.payload(), target))
        }
    }
}

/// Whether the cast of `value` to `target` needs no check: `value` is a finite
/// floating-point number whose integer part is a value of the integer type
/// `target`.
pub open spec fn fits_unchecked(value: NumericValue, target: NumericType) -> bool {
    let format = value.type_of().format();
    let bits = value.payload() as nat;
    &&& value.type_of().is_float()
    &&& !target.is_float()
    &&& is_finite(format, bits)
    &&& target.holds(truncated(format, bits))
}

/// A request for a cast: the value and the type it is to have.
#[derive(Clone, Copy, Debug, PartialEq, Eq, Structural)]
pub struct CastRequest {
    pub value: NumericValue,
    pub target: NumericType,
}

impl CastRequest {
    /// The value cast to the type.
    pub fn perform(self) -> (r: NumericValue)
        ensures
            r == cast_spec(self.value, self.target),
            r.type_of() == self.target,
    {
        cast(self.value, self.target)
    }
}

/// Casts `value` to the type `target`.
pub fn cast(value: NumericValue, target: NumericType) -> (r: NumericValue)
    ensures
        r == cast_spec(value, target),
        r.type_of() == target,
{
    if value.kind().float() {
        if target.float() {
            cast_between_formats(value, target)
        } else {
            cast_from_float(value, target)
        }
    } else if target.float() {
        cast_to_float(value, target)
    } else {
        NumericValue::wrapping(value.widen(), target)
    }
}

/// Casts a floating-point number to an integer type.
fn cast_from_float(value: NumericValue, target: NumericType) -> (r: NumericValue)
    requires
        value.type_of().is_float(),
        !target.is_float(),
    ensures
        r == cast_spec(value, target),
        r.type_of() == target,
{
    let format = value.kind().layout();
    let n: i128 = float_to_int(format, value.widen() as u64, target.min(), target.max());
    proof {
        law_in_range_is_kept(n as int, target);
    }
    NumericValue::wrapping(n, target)
}

/// Casts an integer to a floating format.
fn cast_to_float(value: NumericValue, target: NumericType) -> (r: NumericValue)
    requires
        !value.type_of().is_float(),
        target.is_float(),
    ensures
        r == cast_spec(value, target),
        r.type_of() == target,
{
    NumericValue::from_bits(target, int_to_float(target.layout(), value.widen()))
}

/// Casts a floating-point number to a floating format.
fn cast_between_formats(value: NumericValue, target: NumericType) -> (r: NumericValue)
    requires
        value.type_of().is_float(),
        target.is_float(),
    ensures
        r == cast_spec(value, target),
        r.type_of() == target,
{
    let format = value.kind().layout();
    NumericValue::from_bits(target, float_to_float(format, value.widen() as u64, target.layout()))
}

/// Whether the cast of `value` to `target` needs no check.
pub fn fits(value: NumericValue, target: NumericType) -> (r: bool)
    ensures
        r == fits_unchecked(value, target),
{
    if !value.kind().float() || target.float() {
        return false;
    }
    let format = value.kind().layout();
    if !is_finite_pattern(format, value.widen() as u64) {
        return false;
    }
    let n: i128 = float_to_int(
        format,
        value.widen() as u64,
        -0x1_0000_0000_0000_0000,
        0x1_0000_0000_0000_0000,
    );
    target.min() <= n && n <= target.max()
}

/// Casts a floating-point number to an integer type without bringing it into
/// the target's range: the number is truncated toward zero and the low-order
/// bits of the integer are kept.
///
/// Only a caller that knows the number to be finite and its integer part to
/// lie in the target's range may call this; for such a number the result is
/// that of [`cast`].
pub fn cast_unchecked(value: NumericValue, target: NumericType) -> (r: NumericValue)
    requires
        fits_unchecked(value, target),
    ensures
        r == cast_spec(value, target),
        r.type_of() == target,
        r.payload() == truncated(value.type_of().format(), value.payload() as nat),
{
    let format = value.kind().layout();
    let n: i128 = float_to_int(
        format,
        value.widen() as u64,
        -0x8000_0000_0000_0000,
        0xffff_ffff_ffff_ffff,
    );
    proof {
        law_in_range_is_kept(n as int, target);
    }
    NumericValue::wrapping(n, target)
}

/// A cast between integer types keeps an integer that is a value of the
/// target: in its range the target's wrap-around changes nothing.
pub proof fn law_in_range_is_kept(n: int, target: NumericType)
    requires
        target.holds(n),
    ensures
        wrap(n, target) == n,
{
}

/// The character whose code point is an 8-bit unsigned integer. No other
/// numeric value has a character.
pub fn to_char(value: NumericValue) -> (r: Option<char>)
    ensures
        match value {
            NumericValue::U8(code) => r == Some(code as char),
            _ => r is None,
        },
{
    match value {
        NumericValue::U8(code) => Some(code as char),
        _ => None,
    }
}

/// A signed 8-bit integer cast to the unsigned 8-bit type is itself where it
/// is not negative, and 256 more where it is.
pub proof fn law_signed_byte_to_unsigned(v: i8)
    ensures
        cast_spec(NumericValue::I8(v), NumericType::U8) == NumericValue::U8(
            (if v >= 0 {
                v as int
            } else {
                v + 256
            }) as u8,
        ),
{
}

/// An integer that is a value of the target type is cast to itself: the
/// result has the target type and holds the same integer. In particular a
/// value from 0 up to `2^width` is kept by the unsigned type of that width.
pub proof fn law_cast_keeps_value_in_range(value: NumericValue, target: NumericType)
    requires
        !value.type_of().is_float(),
        target.holds(value.payload()),
    ensures
        cast_spec(value, target).type_of() == target,
        cast_spec(value, target).payload() == value.payload(),
{
    law_in_range_is_kept(value.payload(), target);
}

/// An integer cast to a type that holds it and back to its own type is
/// itself: nothing was lost on the way there, so nothing is missing on the
/// way back. So it is for every value where the type in between is at least
/// as wide and has room for the sign.
pub proof fn law_round_trip(value: NumericValue, through: NumericType)
    requires
        !value.type_of().is_float(),
        through.holds(value.payload()),
    ensures
        cast_spec(cast_spec(value, through), value.type_of()) == value,
{
    law_cast_keeps_value_in_range(value, through);
    law_in_range_is_kept(value.payload(), value.type_of());
}

/// A floating-point number cast to an integer type lands in the type's range:
/// what is not a number becomes zero; a finite number becomes its integer
/// part where the type holds that, else the bound of the type on its side; an
/// infinity becomes the bound on its side.
pub proof fn law_float_to_integer_saturates(value: NumericValue, target: NumericType)
    requires
        value.type_of().is_float(),
        !target.is_float(),
    ensures
        ({
            let format = value.type_of().format();
            let bits = value.payload() as nat;
            let result = cast_spec(value, target);
            let whole = truncated(format, bits);
            &&& result.type_of() == target
            &&& target.min_value() <= result.payload() <= target.max_value()
            &&& is_nan(format, bits) ==> result.payload() == 0
            &&& is_infinite(format, bits) ==> result.payload() == if is_negative(format, bits) {
                target.min_value()
            } else {
                target.max_value()
            }
            &&& is_finite(format, bits) && whole < target.min_value() ==> result.payload()
                == target.min_value()
            &&& is_finite(format, bits) && whole > target.max_value() ==> result.payload()
                == target.max_value()
            &&& is_finite(format, bits) && target.holds(whole) ==> result.payload() == whole
        }),
{
}

/// An integer that the significand of a floating format has room for is
/// cast to the format and back without loss.
pub proof fn law_float_holds_small_integers(value: NumericValue, through: NumericType)
    requires
        !value.type_of().is_float(),
        through.is_float(),
        -2 * through.format().fraction_modulus() < value.payload() < 2
            * through.format().fraction_modulus(),
    ensures
        cast_spec(cast_spec(value, through), value.type_of()) == value,
{
    let own = value.type_of();
    law_integer_round_trip(
        through.format(),
        value.payload(),
        own.min_value(),
        own.max_value(),
    );
}

/// A 32-bit floating-point number, or infinity, cast to the 64-bit format
/// and back is itself.
pub proof fn law_widened_float_comes_back(bits: u32)
    requires
        !is_nan(Format::Single, bits as nat),
    ensures
        cast_spec(cast_spec(NumericValue::F32(bits), NumericType::F64), NumericType::F32)
            == NumericValue::F32(bits),
{
    law_widening_round_trip(bits as nat);
    let wide = float_to_float_spec(Format::Single, bits as nat, Format::Double);
    if is_finite(Format::Single, bits as nat) {
        law_widening_is_exact(bits as nat);
    } else {
        law_infinity_is_a_pattern(Format::Double, is_negative(Format::Single, bits as nat));
    }
    assert(Format::Double.has(wide));
}

} // verus!
