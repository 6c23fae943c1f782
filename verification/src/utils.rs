//! The character that stands for a byte in the last column of the table.

use crate::constant::{NON_ASCII_CHARACTER, NON_PRINTABLE_CHARACTER};
use vstd::prelude::*;

verus! {

/// Whether the byte is an ASCII letter or an ASCII digit.
pub open spec fn is_alphanumeric(byte: u8) -> bool {
    ||| 0x30 <= byte <= 0x39
    ||| 0x41 <= byte <= 0x5a
    ||| 0x61 <= byte <= 0x7a
}

/// Whether the byte is an ASCII punctuation character: one of
/// `` !"#$%&'()*+,-./:;<=>?@[\]^_`{|}~ `` without the space.
pub open spec fn is_punctuation(byte: u8) -> bool {
    ||| 0x21 <= byte <= 0x2f
    ||| 0x3a <= byte <= 0x40
    ||| 0x5b <= byte <= 0x60
    ||| 0x7b <= byte <= 0x7e
}

/// The character shown for a byte: the byte's own character where it is an
/// ASCII letter, digit or punctuation character, one placeholder for the other
/// bytes of the ASCII range, and another for the bytes beyond it.
pub open spec fn glyph(byte: u8) -> char {
    if byte > 0x7f {
        NON_ASCII_CHARACTER
    } else if is_punctuation(byte) || is_alphanumeric(byte) {
        byte as char
    } else {
        NON_PRINTABLE_CHARACTER
    }
}

/// The character shown for the byte `i`.
pub fn itoa(i: u8) -> (c: char)
    ensures
        c == glyph(i),
{
    if i > 0x7f {
        NON_ASCII_CHARACTER
    } else if punctuation(i) || alphanumeric(i) {
        i as char
    } else {
        NON_PRINTABLE_CHARACTER
    }
}

fn alphanumeric(byte: u8) -> (b: bool)
    ensures
        b == is_alphanumeric(byte),
{
    (0x30 <= byte && byte <= 0x39) || (0x41 <= byte && byte <= 0x5a) || (0x61 <= byte && byte
        <= 0x7a)
}

fn punctuation(byte: u8) -> (b: bool)
    ensures
        b == is_punctuation(byte),
{
    (0x21 <= byte && byte <= 0x2f) || (0x3a <= byte && byte <= 0x40) || (0x5b <= byte && byte
        <= 0x60) || (0x7b <= byte && byte <= 0x7e)
}

/// Every byte is shown as one of three things, and its value alone decides as
/// which: a byte from `!` to `~` as its own character, which is neither of the
/// placeholders; any other byte of the ASCII range as the placeholder for
/// unprintable bytes; a byte beyond that range as the other placeholder.
pub proof fn lemma_glyph_total(byte: u8)
    ensures
        0x21 <= byte <= 0x7e ==> glyph(byte) == byte as char && glyph(byte)
            != NON_PRINTABLE_CHARACTER && glyph(byte) != NON_ASCII_CHARACTER,
        byte <= 0x20 || byte == 0x7f ==> glyph(byte) == NON_PRINTABLE_CHARACTER,
        byte >= 0x80 ==> glyph(byte) == NON_ASCII_CHARACTER,
        NON_PRINTABLE_CHARACTER != NON_ASCII_CHARACTER,
{
}

} // verus!
