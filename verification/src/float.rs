//! Reading the value of a float literal.

use vstd::prelude::*;

verus! {

/// What `nom::number::complete::double` gives for a text: nothing where it
/// does not read a float at its head, else the text left after the float and
/// the bits of the 64-bit IEEE-754 value read. The reader looks at nothing
/// but the text, so one text always has one reading.
pub uninterp spec fn double_reading(literal: Seq<char>) -> Option<(Seq<char>, u64)>;

/// Calls `nom::number::complete::double` on `literal` and hands on what it
/// gives: the rest and the bits of the value, or nothing for an error.
#[verifier::external_body]
fn read_double(literal: &str) -> (r: Option<(&str, u64)>)
    ensures
        reading_view(r) == double_reading(literal@),
{
    match nom::number::complete::double::<&str, nom::error::Error<&str>>(literal) {
        Ok((rest, value)) => Some((rest, value.to_bits())),
        Err(_) => None,
    }
}

/// A reading with its rest as a sequence of characters.
pub open spec fn reading_view(reading: Option<(&str, u64)>) -> Option<(Seq<char>, u64)> {
    match reading {
        Some((rest, bits)) => Some((rest@, bits)),
        None => None,
    }
}

/// The bits of a reading that left nothing of the text.
pub open spec fn fully_read(reading: Option<(Seq<char>, u64)>) -> Option<u64> {
    match reading {
        Some((rest, bits)) => if rest.len() == 0 {
            Some(bits)
        } else {
            None
        },
        None => None,
    }
}

/// Accepts a reading if it took the whole text, and gives its bits.
pub fn accept_reading(reading: Option<(&str, u64)>) -> (bits: Option<u64>)
    ensures
        bits == fully_read(reading_view(reading)),
{
    match reading {
        Some((rest, bits)) => if rest.is_empty() {
            Some(bits)
        } else {
            None
        },
        None => None,
    }
}

/// Reads the text of a float literal: the bits of its value, where the float
/// reader takes all of it.
pub fn literal_bits(literal: &str) -> (bits: Option<u64>)
    ensures
        bits == fully_read(double_reading(literal@)),
{
    accept_reading(read_double(literal))
}

} // verus!
