//! The character codec used at the I/O boundary: a fixed, total mapping
//! between byte values and single characters of a legacy 8-bit Western
//! text encoding.
//!
//! Control codes (`0x00`-`0x1F` and `0x7F`-`0x9F`) all print as a space;
//! the printable ASCII range and the upper range `0xA1`-`0xFF` map to the
//! character with the same code; `0xA0` prints as the pound sign. Going
//! back from a character to a byte, the byte chosen is the *largest* one
//! that prints as that character, and a character that no byte prints as
//! falls back to byte `0`.

use vstd::prelude::*;

verus! {

/// The character that the table assigns to byte `b`.
pub open spec fn byte_to_char(b: u8) -> char {
    if 0x20 <= b <= 0x7e || 0xa1 <= b {
        b as char
    } else if b == 0xa0 {
        163 as char
    } else {
        ' '
    }
}

/// The byte that the table assigns to character `c`: the largest byte
/// printing as `c`, or `0` if no byte prints as `c`.
pub open spec fn char_to_byte(c: char) -> u8 {
    if c == ' ' {
        0x9f
    } else if 0x21 <= c as int <= 0x7e || 0xa1 <= c as int <= 0xff {
        (c as int) as u8
    } else {
        0
    }
}

/// Converts a byte value to its single-character textual representation.
///
/// Total: every byte value has exactly one character result.
pub fn to_char_8859(b: u8) -> (c: char)
    ensures
        c == byte_to_char(b),
{
    if 0x20 <= b && b <= 0x7e || 0xa1 <= b {
        b as char
    } else if b == 0xa0 {
        0xa3u8 as char
    } else {
        ' '
    }
}

/// Converts a character back to its byte value.
///
/// Never fails: a character outside the table's 256 entries degrades to
/// the default byte `0`.
pub fn from_char_8859(c: char) -> (b: u8)
    ensures
        b == char_to_byte(c),
{
    if c == ' ' {
        0x9f
    } else {
        let v = c as u32;
        if 0x21 <= v && v <= 0x7e || 0xa1 <= v && v <= 0xff {
            v as u8
        } else {
            0
        }
    }
}

/// Law: converting a byte to its character and back returns the same
/// byte, for every byte whose character appears nowhere later in the
/// table.
///
/// The table is not injective: every control code prints as a space, of
/// which byte `0x9F` is the last, and `0xA0` prints as the pound sign,
/// which byte `0xA3` also prints as. On those bytes the round trip lands
/// on the later table entry instead; on all others it is the identity.
pub proof fn lemma_codec_round_trip(b: u8)
    requires
        0x21 <= b <= 0x7e || b == 0x9f || 0xa1 <= b,
    ensures
        char_to_byte(byte_to_char(b)) == b,
{
}

} // verus!
