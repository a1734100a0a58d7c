//! The recommended host key mapping: the 4 x 4 keyboard block
//! 1 2 3 4 / Q W E R / A S D F / Z X C V onto the machine's hexadecimal
//! keypad, in its classic layout 1 2 3 C / 4 5 6 D / 7 8 9 E / A 0 B F.

use vstd::prelude::*;

verus! {

/// The logical key, if any, behind a host key given as its lower-case
/// character.
pub open spec fn spec_key_of_char(c: char) -> Option<u8> {
    if c == '1' {
        Some(0x1u8)
    } else if c == '2' {
        Some(0x2u8)
    } else if c == '3' {
        Some(0x3u8)
    } else if c == '4' {
        Some(0xCu8)
    } else if c == 'q' {
        Some(0x4u8)
    } else if c == 'w' {
        Some(0x5u8)
    } else if c == 'e' {
        Some(0x6u8)
    } else if c == 'r' {
        Some(0xDu8)
    } else if c == 'a' {
        Some(0x7u8)
    } else if c == 's' {
        Some(0x8u8)
    } else if c == 'd' {
        Some(0x9u8)
    } else if c == 'f' {
        Some(0xEu8)
    } else if c == 'z' {
        Some(0xAu8)
    } else if c == 'x' {
        Some(0x0u8)
    } else if c == 'c' {
        Some(0xBu8)
    } else if c == 'v' {
        Some(0xFu8)
    } else {
        None
    }
}

/// Map a host key, given as its lower-case character, to the logical key
/// it stands for; any unmapped key is `None`. The result is always a
/// valid key index, ready for `Chip::key_event`.
pub fn key_of_char(c: char) -> (k: Option<u8>)
    ensures
        k == spec_key_of_char(c),
        k matches Some(v) ==> v < 16,
{
    match c {
        '1' => Some(0x1),
        '2' => Some(0x2),
        '3' => Some(0x3),
        '4' => Some(0xC),
        'q' => Some(0x4),
        'w' => Some(0x5),
        'e' => Some(0x6),
        'r' => Some(0xD),
        'a' => Some(0x7),
        's' => Some(0x8),
        'd' => Some(0x9),
        'f' => Some(0xE),
        'z' => Some(0xA),
        'x' => Some(0x0),
        'c' => Some(0xB),
        'v' => Some(0xF),
        _ => None,
    }
}

} // verus!
