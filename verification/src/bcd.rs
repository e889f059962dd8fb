//! Binary-coded decimal: each 4-bit nibble carries one decimal digit
//! 0..=9. A nibble of 10 or more is malformed input.

use vstd::prelude::*;

verus! {

/// Both nibbles are decimal digits.
pub open spec fn bcd_valid(b: u8) -> bool {
    b as int / 16 <= 9 && b as int % 16 <= 9
}

/// The two-digit decimal number spelt by the nibbles, high digit first.
pub open spec fn bcd_value(b: u8) -> int {
    (b as int / 16) * 10 + b as int % 16
}

/// Converts a BCD byte to the number it spells.
pub fn bcd_to_byte(b: u8) -> (r: u8)
    ensures
        r as int == bcd_value(b),
{
    (b / 16) * 10 + b % 16
}

/// Tests whether both nibbles are decimal digits.
pub fn bcd_check(b: u8) -> (r: bool)
    ensures
        r == bcd_valid(b),
{
    b / 16 <= 9 && b % 16 <= 9
}

} // verus!
