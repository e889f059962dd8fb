//! The BCD-packed `DATE_AND_TIME` (DT) wire type: eight bytes holding
//! year, month, day, hour, minute, second as BCD pairs, then the
//! milliseconds split over one BCD byte and the high nibble of the last
//! byte. The two-digit year pivots at 90: below it the century is 2000,
//! at or above it 1900.

use vstd::prelude::*;
use crate::bcd::{bcd_valid, bcd_value};
use crate::date::days_in_month;
use crate::text::{dec_bytes, pad2_bytes, pad3_bytes};

verus! {

/// A calendar timestamp with millisecond precision.
#[derive(Clone, Copy, Debug, PartialEq, Eq, Structural)]
pub struct DateTime {
    pub year: u16,
    pub month: u8,
    pub day: u8,
    pub hour: u8,
    pub minute: u8,
    pub second: u8,
    pub millisecond: u16,
}

/// The century pivot: a two-digit year below 90 lies in the 2000s, the
/// rest in the 1900s.
pub open spec fn pivot_year(yy: int) -> int {
    if yy < 90 {
        2000 + yy
    } else {
        1900 + yy
    }
}

/// Every field lies in its calendar domain.
pub open spec fn valid_datetime(dt: DateTime) -> bool {
    &&& 1 <= dt.month <= 12
    &&& 1 <= dt.day <= days_in_month(dt.year as int, dt.month as int)
    &&& dt.hour <= 23
    &&& dt.minute <= 59
    &&& dt.second <= 59
    &&& dt.millisecond <= 999
}

/// The bytes of a DT span are all BCD where a digit is read: both
/// nibbles of the first seven bytes, and the high nibble of the last.
pub open spec fn dt_bcd_valid(b: Seq<u8>) -> bool
    recommends
        b.len() == 8,
{
    &&& bcd_valid(b[0])
    &&& bcd_valid(b[1])
    &&& bcd_valid(b[2])
    &&& bcd_valid(b[3])
    &&& bcd_valid(b[4])
    &&& bcd_valid(b[5])
    &&& bcd_valid(b[6])
    &&& b[7] as int / 16 <= 9
}

/// The timestamp an eight-byte DT span denotes, nibble by nibble.
pub open spec fn decode_dt(b: Seq<u8>) -> DateTime
    recommends
        b.len() == 8,
{
    DateTime {
        year: pivot_year(bcd_value(b[0])) as u16,
        month: bcd_value(b[1]) as u8,
        day: bcd_value(b[2]) as u8,
        hour: bcd_value(b[3]) as u8,
        minute: bcd_value(b[4]) as u8,
        second: bcd_value(b[5]) as u8,
        millisecond: (bcd_value(b[6]) * 10 + b[7] as int / 16) as u16,
    }
}

/// The display form `YYYY-MM-DD HH:MM:SS[.mmm] UTC`: the millisecond
/// fraction appears only when it is non-zero.
pub open spec fn dt_display_bytes(dt: DateTime) -> Seq<u8> {
    dec_bytes(dt.year as int) + seq![45u8] + pad2_bytes(dt.month as int) + seq![45u8]
        + pad2_bytes(dt.day as int) + seq![32u8] + pad2_bytes(dt.hour as int) + seq![58u8]
        + pad2_bytes(dt.minute as int) + seq![58u8] + pad2_bytes(dt.second as int) + (
    if dt.millisecond == 0 {
        Seq::<u8>::empty()
    } else {
        seq![46u8] + pad3_bytes(dt.millisecond as int)
    }) + seq![32u8, 85u8, 84u8, 67u8]
}

} // verus!
