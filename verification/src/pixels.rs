//! Terminal pixels shared by the toys: Unicode braille cells (a 2 by 4
//! block of dots per character cell), code points, and packed colours.

use vstd::prelude::*;

verus! {

/// A Unicode scalar value: a code point outside the surrogate range.
pub open spec fn valid_scalar(cp: u32) -> bool {
    cp < 0xD800 || (0xE000 <= cp && cp <= 0x10FFFF)
}

/// Calls `char::from_u32`, which the standard library documents as the
/// character with that code point when it is a Unicode scalar value, and
/// `None` otherwise.
#[verifier::external_body]
fn char_from_u32(cp: u32) -> (r: Option<char>)
    ensures
        valid_scalar(cp) ==> r is Some && r->0 as u32 == cp,
        !valid_scalar(cp) ==> r is None,
{
    char::from_u32(cp)
}

/// The character of a code point, or a space when it is no character.
pub fn cp_to_char(cp: u32) -> (c: char)
    ensures
        valid_scalar(cp) ==> c as u32 == cp,
        !valid_scalar(cp) ==> c == ' ',
{
    match char_from_u32(cp) {
        Some(c) => c,
        None => ' ',
    }
}

/// The braille bit of the dot in column `dx` (0 or 1) and row `dy` (0 to
/// 3) of a cell: dots 1, 2, 3, 7 down the left, 4, 5, 6, 8 down the right;
/// nothing outside the cell.
pub open spec fn braille_dot(dx: int, dy: int) -> u8 {
    if dx == 0 && dy == 0 {
        0x01
    } else if dx == 0 && dy == 1 {
        0x02
    } else if dx == 0 && dy == 2 {
        0x04
    } else if dx == 0 && dy == 3 {
        0x40
    } else if dx == 1 && dy == 0 {
        0x08
    } else if dx == 1 && dy == 1 {
        0x10
    } else if dx == 1 && dy == 2 {
        0x20
    } else if dx == 1 && dy == 3 {
        0x80
    } else {
        0
    }
}

pub fn braille_bit(dx: usize, dy: usize) -> (b: u8)
    ensures
        b == braille_dot(dx as int, dy as int),
{
    match (dx, dy) {
        (0, 0) => 0x01,
        (0, 1) => 0x02,
        (0, 2) => 0x04,
        (0, 3) => 0x40,
        (1, 0) => 0x08,
        (1, 1) => 0x10,
        (1, 2) => 0x20,
        (1, 3) => 0x80,
        _ => 0,
    }
}

/// The braille cell whose raised dots are the set bits of `bits`:
/// U+2800 plus the bits.
pub fn braille_char(bits: u8) -> (c: char)
    ensures
        c as u32 == 0x2800 + bits,
{
    cp_to_char(0x2800 + bits as u32)
}

pub const BRAILLE_BASE: u32 = 0x2800;

/// The dots of the brightness ramp, from none to all eight.
pub open spec fn ramp_dots(level: int) -> u8 {
    if level <= 0 {
        0
    } else if level == 1 {
        0x01
    } else if level == 2 {
        0x09
    } else if level == 3 {
        0x0B
    } else if level == 4 {
        0x1B
    } else if level == 5 {
        0x1F
    } else if level == 6 {
        0x3F
    } else if level == 7 {
        0x7F
    } else {
        0xFF
    }
}

/// A braille cell with `level` dots raised (at most eight), in the ramp's
/// fill order: 1, 4, 2, 5, 3, 6, 7, 8.
pub fn ramp_braille(level_0_to_8: usize) -> (c: char)
    ensures
        c as u32 == BRAILLE_BASE + ramp_dots(level_0_to_8 as int),
{
    let ramp: [u8; 9] = [0x00, 0x01, 0x09, 0x0B, 0x1B, 0x1F, 0x3F, 0x7F, 0xFF];
    let level = if level_0_to_8 < 8 { level_0_to_8 } else { 8 };
    let m = ramp[level] as u32;
    cp_to_char(BRAILLE_BASE + m)
}

/// The dots of a 2 by 4 block: dots 1 to 8 raised as given.
pub open spec fn dots8(d1: bool, d2: bool, d3: bool, d4: bool, d5: bool, d6: bool, d7: bool, d8: bool) -> u16 {
    (if d1 { 0x01u16 } else { 0u16 }) | (if d2 { 0x02u16 } else { 0u16 }) | (if d3 { 0x04u16 } else { 0u16 })
        | (if d4 { 0x08u16 } else { 0u16 }) | (if d5 { 0x10u16 } else { 0u16 }) | (if d6 { 0x20u16 } else { 0u16 })
        | (if d7 { 0x40u16 } else { 0u16 }) | (if d8 { 0x80u16 } else { 0u16 })
}

/// The dots of a 2 by 4 block given row by row.
pub open spec fn block_dots(bits: [[bool; 2]; 4]) -> u16 {
    dots8(bits[0][0], bits[1][0], bits[2][0], bits[0][1], bits[1][1], bits[2][1], bits[3][0], bits[3][1])
}

/// The braille cell of a 2 by 4 block of dots, given row by row.
pub fn braille_from_2x4(bits: [[bool; 2]; 4]) -> (c: char)
    ensures
        c as u32 == 0x2800 + block_dots(bits),
        block_dots(bits) <= 0xFF,
{
    let d1 = bits[0][0];
    let d2 = bits[1][0];
    let d3 = bits[2][0];
    let d4 = bits[0][1];
    let d5 = bits[1][1];
    let d6 = bits[2][1];
    let d7 = bits[3][0];
    let d8 = bits[3][1];
    let mut mask: u16 = 0;
    mask |= if d1 { 1u16 << 0u16 } else { 0u16 };
    mask |= if d2 { 1u16 << 1u16 } else { 0u16 };
    mask |= if d3 { 1u16 << 2u16 } else { 0u16 };
    mask |= if d4 { 1u16 << 3u16 } else { 0u16 };
    mask |= if d5 { 1u16 << 4u16 } else { 0u16 };
    mask |= if d6 { 1u16 << 5u16 } else { 0u16 };
    mask |= if d7 { 1u16 << 6u16 } else { 0u16 };
    mask |= if d8 { 1u16 << 7u16 } else { 0u16 };
    assert(mask == dots8(d1, d2, d3, d4, d5, d6, d7, d8) && dots8(d1, d2, d3, d4, d5, d6, d7, d8) <= 0xFF)
        by (bit_vector)
        requires
            mask == ((((((((0u16 | (if d1 { 1u16 << 0u16 } else { 0u16 })) | (if d2 { 1u16 << 1u16 } else { 0u16 }))
                | (if d3 { 1u16 << 2u16 } else { 0u16 })) | (if d4 { 1u16 << 3u16 } else { 0u16 }))
                | (if d5 { 1u16 << 4u16 } else { 0u16 })) | (if d6 { 1u16 << 5u16 } else { 0u16 }))
                | (if d7 { 1u16 << 6u16 } else { 0u16 })) | (if d8 { 1u16 << 7u16 } else { 0u16 })),
    ;
    cp_to_char(0x2800 + mask as u32)
}

/// A colour as one number: red in bits 16 to 23, green in 8 to 15, blue
/// in 0 to 7.
pub fn pack_rgb(r: u8, g: u8, b: u8) -> (c: u32)
    ensures
        c == r * 65536 + g * 256 + b,
{
    let c = ((r as u32) << 16) | ((g as u32) << 8) | (b as u32);
    assert(c == r * 65536 + g * 256 + b) by (bit_vector)
        requires
            c == ((r as u32) << 16u32) | ((g as u32) << 8u32) | (b as u32),
    ;
    c
}

/// The red, green and blue bytes of a packed colour.
pub fn unpack_rgb(c: u32) -> (rgb: (u8, u8, u8))
    ensures
        rgb.0 == (c / 65536) % 256,
        rgb.1 == (c / 256) % 256,
        rgb.2 == c % 256,
{
    let r = ((c >> 16) & 255) as u8;
    let g = ((c >> 8) & 255) as u8;
    let b = (c & 255) as u8;
    assert(((c >> 16u32) & 255u32) == (c / 65536) % 256 && ((c >> 8u32) & 255u32) == (c / 256) % 256
        && (c & 255u32) == c % 256) by (bit_vector);
    (r, g, b)
}

/// Packing a colour and unpacking it gives back its three bytes; and a
/// number below 2^24, unpacked and packed again, is itself.
pub proof fn law_rgb_round_trip(r: u8, g: u8, b: u8, c: u32)
    ensures
        ((r * 65536 + g * 256 + b) / 65536) % 256 == r,
        ((r * 65536 + g * 256 + b) / 256) % 256 == g,
        (r * 65536 + g * 256 + b) % 256 == b,
        c < 0x100_0000 ==> ((c / 65536) % 256) * 65536 + ((c / 256) % 256) * 256 + c % 256 == c,
{
    assert(((r * 65536 + g * 256 + b) / 65536) % 256 == r) by (nonlinear_arith)
        requires
            r < 256,
            g < 256,
            b < 256,
    ;
    assert(((r * 65536 + g * 256 + b) / 256) % 256 == g) by (nonlinear_arith)
        requires
            r < 256,
            g < 256,
            b < 256,
    ;
    assert((r * 65536 + g * 256 + b) % 256 == b) by (nonlinear_arith)
        requires
            r < 256,
            g < 256,
            b < 256,
    ;
    assert(c < 0x100_0000 ==> ((c / 65536) % 256) * 65536 + ((c / 256) % 256) * 256 + c % 256 == c)
        by (nonlinear_arith);
}

} // verus!
