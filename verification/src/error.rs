use vstd::prelude::*;

verus! {

/// The error taxonomy of the codec.
///
/// Every fallible operation returns one of these instead of panicking,
/// so that malformed wire data can never abort a host process.
#[derive(Clone, Copy, Debug, PartialEq, Eq, Structural)]
pub enum CodecError {
    /// The requested byte/bit span exceeds the buffer length.
    Bounds,
    /// Decoded bytes violate the type's domain: an invalid BCD nibble,
    /// a `String` whose length exceeds its capacity, or a non-ASCII byte
    /// where a character is expected.
    Format,
    /// A value is syntactically well formed but semantically outside the
    /// type's valid domain: a time of day of a full day or more, a date
    /// outside 1990..=2168, a calendar field such as month 13.
    Range,
    /// A textual input does not match the expected grammar, as for the
    /// `TIME` duration string.
    Parse,
}

} // verus!
