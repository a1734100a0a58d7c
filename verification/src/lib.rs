//! Core of a CHIP-8 virtual machine: memory, registers, framebuffer, keypad
//! and the fetch-decode-execute engine, with verified instruction semantics.
//! The host-facing pieces (window, audio, ROM file, real keyboard) live
//! outside this crate and talk to it through plain values.

use vstd::prelude::*;

pub mod chip;
pub mod font;
pub mod framebuffer;
pub mod keymap;
pub mod laws;
mod rng;

verus! {

/// Width of the display in pixels.
pub const SCREEN_WIDTH: usize = 64;

/// Height of the display in pixels.
pub const SCREEN_HEIGHT: usize = 32;

/// Reduce an address computation to the 12-bit address space.
/// All CHIP-8 address arithmetic is carried out modulo 4096.
pub open spec fn spec_wrap_addr(a: int) -> int {
    if a < 4096 {
        a
    } else {
        a - 4096
    }
}

/// Executable counterpart of `spec_wrap_addr` for the address range
/// that ever arises (a 12-bit base plus a small offset).
pub fn wrap_addr(a: u16) -> (r: u16)
    requires
        a < 8192,
    ensures
        r == spec_wrap_addr(a as int),
        r < 4096,
{
    if a < 4096 {
        a
    } else {
        a - 4096
    }
}

} // verus!
