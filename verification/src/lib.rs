//! Bit-exact encoder/decoder for the S7 PLC wire formats: fixed-width
//! big-endian scalars, Pascal-style and fixed-width strings, BCD-packed
//! date/time types, and the S5TIME/TIME/TOD/DATE duration representations.
//!
//! Every decode reads from a caller-owned byte buffer at a byte (and
//! sometimes bit) offset; every encode writes the wire form in place.
//! All operations are bounds-checked and return a typed error instead of
//! panicking on malformed input.

mod bcd;
mod date;
mod dt;
mod error;
mod getters;
mod model;
mod setters;
mod text;
mod timestr;
mod wire;

pub use bcd::{bcd_check, bcd_to_byte, bcd_valid, bcd_value};
pub use date::{
    date_from_day_offset, day_index, day_offset_from_date, days_before_month, days_before_year,
    days_in_month, is_leap_year, lemma_day_index_bounds, lemma_day_index_injective,
    valid_date, year_len, Date,
    MAX_DATE_OFFSET,
};
pub use dt::{decode_dt, dt_bcd_valid, dt_display_bytes, pivot_year, valid_datetime, DateTime};
pub use error::CodecError;
pub use getters::{
    bit_of, duration_display_bytes, get_bool, get_byte, get_date, get_date_time_object, get_dint,
    get_dt, get_dword, get_fstring, get_int, get_lint, get_lword, get_s5time, get_sint,
    get_string, get_time, get_tod, get_udint, get_uint, get_ulint, get_usint, get_word,
    s5time_base, s5time_us, time_display_bytes, MS_PER_DAY,
};
pub use model::{
    area_code_value, area_table_value, block_type_value, conn_type_value, internal_param_value,
    mask_kind_value, word_len_value, AreaCode, AreaTable, BlockType, ConnType, InternalParam,
    InternalParamValue, MaskKind, WordLenTable, EVC_CLIENTS_DROPPED, EVC_CLIENT_ADDED,
    EVC_CLIENT_DISCONNECTED, EVC_CLIENT_EXCEPTION, EVC_CLIENT_NO_ROOM, EVC_CLIENT_REJECTED,
    EVC_CLIENT_TERMINATED, EVC_CLOCK, EVC_CONTROL, EVC_DATA_READ, EVC_DATA_WRITE, EVC_DIRECTORY,
    EVC_DOWNLOAD, EVC_LISTENER_CANNOT_START, EVC_NEGOTIATE_PDU, EVC_PDU_INCOMING, EVC_READ_SZL,
    EVC_RESERVED_00000400, EVC_RESERVED_00000800, EVC_RESERVED_00001000, EVC_RESERVED_00002000,
    EVC_RESERVED_00004000, EVC_RESERVED_00008000, EVC_RESERVED_08000000, EVC_RESERVED_10000000,
    EVC_RESERVED_20000000, EVC_RESERVED_40000000, EVC_RESERVED_80000000, EVC_SECURITY,
    EVC_SERVER_STARTED, EVC_SERVER_STOPPED, EVC_UPLOAD,
};
pub use setters::{
    be_write_ok, lemma_set_then_get, lemma_string_round_trip, set_bool, set_byte, set_char, set_date, set_dint, set_dword, set_fstring, set_int,
    set_lint, set_lword, set_sint, set_string, set_time, set_udint, set_uint, set_ulint, set_usint,
    set_word,
};
pub use text::{
    ascii_bytes, chars_of, dec_bytes, digit_byte, pad2_bytes, pad3_bytes, pad6_bytes,
    trim_right_space_chars, trim_right_zeros,
};
pub use timestr::{
    digit_run_len, digits_val, find_sep, first_match, is_digit, match_at, match_magnitude,
    match_value, parse_time_string, time_match, TimeMatch,
};
pub use wire::{
    be_bytes, be_val, lemma_be_round_trip, signed16, signed32, signed64, signed8, unsigned16,
    unsigned32, unsigned64, unsigned8, lemma_signed_round_trip, lemma_unsigned_round_trip,
};
