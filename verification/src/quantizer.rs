//! The display quantizer: from the value a cell has accumulated over a frame
//! to the symbol the cell shows.
//!
//! The accumulated value arrives as the bit pattern of an IEEE 754 binary64
//! number (what `to_bits` gives for a double), so that the truncation rule is
//! stated and proved here on whole numbers: one sign bit, eleven exponent
//! bits, fifty-two fraction bits.

use crate::decimal::{decimal, decimal_text};
use crate::glyph::ElementValue;
use vstd::arithmetic::div_mod::{
    lemma_div_is_ordered,
    lemma_div_is_ordered_by_denominator,
    lemma_fundamental_div_mod,
    lemma_mod_bound,
};
use vstd::arithmetic::power2::{
    lemma2_to64,
    lemma2_to64_rest,
    lemma_pow2_pos,
    lemma_pow2_strictly_increases,
    pow2,
};
use vstd::bits::lemma_u64_shr_is_div;
use vstd::prelude::*;

verus! {

/// The lowest bit pattern with the sign bit set.
pub const SIGN_BIT: u64 = 0x8000_0000_0000_0000;

/// Number of fraction bits.
pub const FRACTION_BITS: u64 = 52;

/// Two to the power 52: one more than the largest fraction field.
pub const FRACTION_RANGE: u64 = 0x10_0000_0000_0000;

/// Two to the power 11: one more than the largest exponent field.
pub const EXPONENT_RANGE: u64 = 0x800;

/// The exponent field of infinities and of values that are not numbers.
pub const EXPONENT_SPECIAL: u64 = 0x7ff;

/// The exponent field of the values from one up to, but not including, two.
pub const EXPONENT_OF_ONE: u64 = 1023;

/// What a cell shows for one frame.
#[derive(Clone, Copy, Debug, PartialEq, Eq, Structural)]
pub enum DisplaySymbol {
    /// The resting glyph of the board: the cell's value truncates to zero.
    Placeholder,
    /// The truncated value, which is not zero.
    Number(i32),
}

/// The value has its sign bit set.
pub open spec fn is_negative(bits: u64) -> bool {
    bits >= SIGN_BIT
}

/// The eleven exponent bits.
pub open spec fn exponent_field(bits: u64) -> int {
    (bits as int / FRACTION_RANGE as int) % (EXPONENT_RANGE as int)
}

/// The fifty-two fraction bits.
pub open spec fn fraction_field(bits: u64) -> int {
    bits as int % FRACTION_RANGE as int
}

/// The bit pattern stands for no number.
pub open spec fn is_nan(bits: u64) -> bool {
    exponent_field(bits) == EXPONENT_SPECIAL && fraction_field(bits) != 0
}

/// The bit pattern stands for plus or minus infinity.
pub open spec fn is_infinite(bits: u64) -> bool {
    exponent_field(bits) == EXPONENT_SPECIAL && fraction_field(bits) == 0
}

/// The significand of a finite value, as a whole number: the magnitude of the
/// value is `significand(bits)` times two to the power `scale(bits)`.
pub open spec fn significand(bits: u64) -> nat {
    if exponent_field(bits) == 0 {
        fraction_field(bits) as nat
    } else {
        (FRACTION_RANGE + fraction_field(bits)) as nat
    }
}

/// The power of two by which the significand of a finite value is scaled:
/// the exponent field less the field of one, less the fraction bits that the
/// significand counts as whole. An exponent field of zero scales as a field
/// of one does.
pub open spec fn scale(bits: u64) -> int {
    if exponent_field(bits) == 0 {
        1 - (EXPONENT_OF_ONE + FRACTION_BITS)
    } else {
        exponent_field(bits) - (EXPONENT_OF_ONE + FRACTION_BITS)
    }
}

/// The whole part of the magnitude of a finite value: the largest whole
/// number that is not above it.
pub open spec fn whole_part(bits: u64) -> nat {
    if scale(bits) >= 0 {
        significand(bits) * pow2(scale(bits) as nat)
    } else {
        significand(bits) / pow2((-scale(bits)) as nat)
    }
}

/// The value truncated toward zero to a 32-bit integer. What lies beyond the
/// integer's range, infinities included, goes to the nearest end of the
/// range; what is not a number goes to zero.
pub open spec fn truncated(bits: u64) -> int {
    if is_nan(bits) {
        0
    } else if is_negative(bits) {
        if is_infinite(bits) || whole_part(bits) > -(i32::MIN as int) {
            i32::MIN as int
        } else {
            -(whole_part(bits) as int)
        }
    } else {
        if is_infinite(bits) || whole_part(bits) > i32::MAX {
            i32::MAX as int
        } else {
            whole_part(bits) as int
        }
    }
}

/// The symbol for a truncated value: the placeholder for zero, the number
/// itself otherwise.
pub open spec fn symbol_of(truncated: int) -> DisplaySymbol {
    if truncated == 0 {
        DisplaySymbol::Placeholder
    } else {
        DisplaySymbol::Number(truncated as i32)
    }
}

impl DisplaySymbol {
    /// The text of the symbol: the resting glyph, or the number in decimal.
    pub open spec fn text_of(self) -> Seq<char> {
        match self {
            DisplaySymbol::Placeholder => ElementValue::Central.glyph(),
            DisplaySymbol::Number(value) => decimal_text(value as int),
        }
    }

    /// The text that the cell shows.
    pub fn text(&self) -> (text: String)
        ensures
            text@ == self.text_of(),
    {
        match self {
            DisplaySymbol::Placeholder => ElementValue::Central.value(),
            DisplaySymbol::Number(value) => decimal(*value),
        }
    }
}

/// Truncates the value with the bit pattern `bits` toward zero.
pub fn truncate(bits: u64) -> (whole: i32)
    ensures
        whole == truncated(bits),
{
    let negative = bits >= SIGN_BIT;
    let exponent = (bits / FRACTION_RANGE) % EXPONENT_RANGE;
    let fraction = bits % FRACTION_RANGE;
    if exponent == EXPONENT_SPECIAL && fraction != 0 {
        return 0;
    }
    if exponent < EXPONENT_OF_ONE {
        proof {
            lemma_below_one(bits);
        }
        return 0;
    }
    if exponent >= EXPONENT_OF_ONE + 31 {
        proof {
            if !is_infinite(bits) {
                lemma_beyond_range(bits);
            }
        }
        return if negative {
            i32::MIN
        } else {
            i32::MAX
        };
    }
    let shift = EXPONENT_OF_ONE + FRACTION_BITS - exponent;
    let magnitude = (FRACTION_RANGE + fraction) >> shift;
    proof {
        lemma_u64_shr_is_div((FRACTION_RANGE + fraction) as u64, shift);
        lemma_within_range(bits);
    }
    if negative {
        -(magnitude as i32)
    } else {
        magnitude as i32
    }
}

/// The symbol that a cell shows for the accumulated value with the bit
/// pattern `bits`.
pub fn quantize(bits: u64) -> (symbol: DisplaySymbol)
    ensures
        symbol == symbol_of(truncated(bits)),
{
    let whole = truncate(bits);
    if whole == 0 {
        DisplaySymbol::Placeholder
    } else {
        DisplaySymbol::Number(whole)
    }
}

/// A finite value whose exponent field is below that of one has a magnitude
/// below one: its whole part is zero.
pub proof fn lemma_below_one(bits: u64)
    requires
        exponent_field(bits) < EXPONENT_OF_ONE,
    ensures
        whole_part(bits) == 0,
        truncated(bits) == 0,
{
    lemma2_to64_rest();
    let down = (-scale(bits)) as nat;
    assert(significand(bits) < pow2(53));
    if down > 53 {
        lemma_pow2_strictly_increases(53, down);
    }
    assert(significand(bits) / pow2(down) == 0) by (nonlinear_arith)
        requires
            0 <= significand(bits) < pow2(down),
    ;
}

/// A finite value whose exponent field is 31 or more above that of one has a
/// magnitude of at least two to the power 31.
pub proof fn lemma_beyond_range(bits: u64)
    requires
        EXPONENT_OF_ONE + 31 <= exponent_field(bits) < EXPONENT_SPECIAL,
    ensures
        whole_part(bits) >= 0x8000_0000,
{
    lemma2_to64();
    lemma2_to64_rest();
    let s = significand(bits);
    assert(s >= pow2(52));
    if scale(bits) >= 0 {
        let up = scale(bits) as nat;
        lemma_pow2_pos(up);
        assert(s * pow2(up) >= s) by (nonlinear_arith)
            requires
                s >= 0,
                pow2(up) >= 1,
        ;
    } else {
        let down = (-scale(bits)) as nat;
        lemma_pow2_pos(down);
        if down < 21 {
            lemma_pow2_strictly_increases(down, 21);
        }
        lemma_div_is_ordered(pow2(52) as int, s as int, pow2(down) as int);
        lemma_div_is_ordered_by_denominator(pow2(52) as int, pow2(down) as int, pow2(21) as int);
        assert(pow2(52) as int / pow2(21) as int == 0x8000_0000) by {
            assert(0x10_0000_0000_0000int / 0x20_0000int == 0x8000_0000int);
        }
    }
}

/// A value whose exponent field is less than 31 above that of one has a whole
/// part below two to the power 31, which truncation gives back with the
/// value's sign.
pub proof fn lemma_within_range(bits: u64)
    requires
        EXPONENT_OF_ONE <= exponent_field(bits) < EXPONENT_OF_ONE + 31,
    ensures
        whole_part(bits) == significand(bits) / pow2((-scale(bits)) as nat),
        1 <= whole_part(bits) < 0x8000_0000,
        truncated(bits) == if is_negative(bits) {
            -(whole_part(bits) as int)
        } else {
            whole_part(bits) as int
        },
{
    lemma2_to64();
    lemma2_to64_rest();
    let s = significand(bits);
    let down = (-scale(bits)) as nat;
    assert(pow2(52) <= s < pow2(53));
    lemma_pow2_pos(down);
    if down > 22 {
        lemma_pow2_strictly_increases(22, down);
    }
    if down < 52 {
        lemma_pow2_strictly_increases(down, 52);
    }
    lemma_div_is_ordered_by_denominator(s as int, pow2(22) as int, pow2(down) as int);
    assert(s as int / pow2(22) as int <= 0x7fff_ffff) by {
        lemma_div_is_ordered(s as int, 0x1f_ffff_ffff_ffffint, 0x40_0000int);
        assert(0x1f_ffff_ffff_ffffint / 0x40_0000int == 0x7fff_ffffint);
    }
    lemma_div_is_ordered(pow2(down) as int, s as int, pow2(down) as int);
    assert(pow2(down) as int / pow2(down) as int == 1) by (nonlinear_arith)
        requires
            pow2(down) > 0,
    ;
}

/// Truncation cuts toward zero and does not round: the whole part of a finite
/// value that has digits behind the point is the one whole number with
/// `whole <= magnitude < whole + 1`, both sides scaled up by the power of two
/// that makes the magnitude whole.
pub proof fn lemma_whole_part_bounds(bits: u64)
    requires
        exponent_field(bits) < EXPONENT_SPECIAL,
        scale(bits) < 0,
    ensures
        whole_part(bits) * pow2((-scale(bits)) as nat) <= significand(bits),
        significand(bits) < (whole_part(bits) + 1) * pow2((-scale(bits)) as nat),
{
    let s = significand(bits) as int;
    let unit = pow2((-scale(bits)) as nat) as int;
    lemma_pow2_pos((-scale(bits)) as nat);
    lemma_fundamental_div_mod(s, unit);
    lemma_mod_bound(s, unit);
    assert(unit * (s / unit) == (s / unit) * unit) by (nonlinear_arith);
    assert((s / unit + 1) * unit == (s / unit) * unit + unit) by (nonlinear_arith);
}

/// A cell that has accumulated nothing shows the placeholder: zero, with
/// either sign, truncates to zero.
pub proof fn lemma_zero_placeholder()
    ensures
        truncated(0) == 0,
        truncated(SIGN_BIT) == 0,
        symbol_of(truncated(0)) == DisplaySymbol::Placeholder,
        symbol_of(truncated(SIGN_BIT)) == DisplaySymbol::Placeholder,
        DisplaySymbol::Placeholder.text_of() == seq!['0'],
{
    lemma_below_one(0);
    lemma_below_one(SIGN_BIT);
}

/// A cell shows the placeholder exactly when its value is not a number or
/// lies strictly between minus one and one.
pub proof fn lemma_placeholder(bits: u64)
    ensures
        symbol_of(truncated(bits)) == DisplaySymbol::Placeholder <==> (is_nan(bits)
            || exponent_field(bits) < EXPONENT_OF_ONE),
{
    if is_nan(bits) {
    } else if exponent_field(bits) < EXPONENT_OF_ONE {
        lemma_below_one(bits);
    } else if exponent_field(bits) < EXPONENT_OF_ONE + 31 {
        lemma_within_range(bits);
    } else if !is_infinite(bits) {
        assert(exponent_field(bits) < EXPONENT_RANGE);
        lemma_beyond_range(bits);
    }
}

} // verus!
