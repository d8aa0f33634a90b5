//! Glyph advance widths of the standard Helvetica font under WinAnsiEncoding.

use vstd::prelude::*;

verus! {

/// Advance width, in units of 1/1000 em, of the Helvetica glyph that
/// WinAnsiEncoding assigns to `byte` (Adobe Helvetica AFM metrics); bytes
/// without a glyph metric count as 556, the width of a digit.
pub open spec fn helvetica_advance(byte: u8) -> u32 {
    match byte {
        0x20 => 278,  // space
        0x21 => 278,  // !
        0x22 => 355,  // "
        0x23 => 556,  // #
        0x24 => 556,  // $
        0x25 => 889,  // %
        0x26 => 667,  // &
        0x27 => 191,  // '
        0x28 => 333,  // (
        0x29 => 333,  // )
        0x2A => 389,  // *
        0x2B => 584,  // +
        0x2C => 278,  // ,
        0x2D => 333,  // -
        0x2E => 278,  // .
        0x2F => 278,  // /
        0x30 | 0x31 | 0x32 | 0x33 | 0x34 | 0x35 | 0x36 | 0x37 | 0x38 | 0x39 => 556,
        0x3A => 278,  // :
        0x3B => 278,  // ;
        0x3C => 584,  // <
        0x3D => 584,  // =
        0x3E => 584,  // >
        0x3F => 556,  // ?
        0x40 => 1015,  // @
        0x41 => 667,  // A
        0x42 => 667,  // B
        0x43 => 722,  // C
        0x44 => 722,  // D
        0x45 => 667,  // E
        0x46 => 611,  // F
        0x47 => 778,  // G
        0x48 => 722,  // H
        0x49 => 278,  // I
        0x4A => 500,  // J
        0x4B => 667,  // K
        0x4C => 556,  // L
        0x4D => 833,  // M
        0x4E => 722,  // N
        0x4F => 778,  // O
        0x50 => 667,  // P
        0x51 => 778,  // Q
        0x52 => 722,  // R
        0x53 => 667,  // S
        0x54 => 611,  // T
        0x55 => 722,  // U
        0x56 => 667,  // V
        0x57 => 944,  // W
        0x58 => 667,  // X
        0x59 => 667,  // Y
        0x5A => 611,  // Z
        0x5B => 278,  // [
        0x5C => 278,  // \
        0x5D => 278,  // ]
        0x5E => 469,  // ^
        0x5F => 556,  // _
        0x60 => 333,  // `
        0x61 => 556,  // a
        0x62 => 556,  // b
        0x63 => 500,  // c
        0x64 => 556,  // d
        0x65 => 556,  // e
        0x66 => 278,  // f
        0x67 => 556,  // g
        0x68 => 556,  // h
        0x69 => 222,  // i
        0x6A => 222,  // j
        0x6B => 500,  // k
        0x6C => 222,  // l
        0x6D => 833,  // m
        0x6E => 556,  // n
        0x6F => 556,  // o
        0x70 => 556,  // p
        0x71 => 556,  // q
        0x72 => 333,  // r
        0x73 => 500,  // s
        0x74 => 278,  // t
        0x75 => 556,  // u
        0x76 => 500,  // v
        0x77 => 722,  // w
        0x78 => 500,  // x
        0x79 => 500,  // y
        0x7A => 500,  // z
        0x7B => 334,  // {
        0x7C => 260,  // |
        0x7D => 334,  // }
        0x7E => 584,  // ~
        0xA0 => 278,  // non-breaking space
        0xA1 => 333,
        0xA2 => 556,
        0xA3 => 556,
        0xA4 => 556,
        0xA5 => 556,
        0xA6 => 260,
        0xA7 => 556,
        0xA8 => 333,
        0xA9 => 737,
        0xAA => 370,
        0xAB => 556,
        0xAC => 584,
        0xAD => 333,  // soft hyphen
        0xAE => 737,
        0xAF => 333,
        0xB0 => 400,
        0xB1 => 584,
        0xB2 => 333,
        0xB3 => 333,
        0xB4 => 333,
        0xB5 => 556,
        0xB6 => 537,
        0xB7 => 278,
        0xB8 => 333,
        0xB9 => 333,
        0xBA => 365,
        0xBB => 556,
        0xBC => 834,
        0xBD => 834,
        0xBE => 834,
        0xBF => 611,
        0xC0 => 667,
        0xC1 => 667,
        0xC2 => 667,
        0xC3 => 667,
        0xC4 => 667,
        0xC5 => 667,
        0xC6 => 1000,
        0xC7 => 722,
        0xC8 => 667,
        0xC9 => 667,
        0xCA => 667,
        0xCB => 667,
        0xCC => 278,
        0xCD => 278,
        0xCE => 278,
        0xCF => 278,
        0xD0 => 722,
        0xD1 => 722,
        0xD2 => 778,
        0xD3 => 778,
        0xD4 => 778,
        0xD5 => 778,
        0xD6 => 778,
        0xD7 => 584,
        0xD8 => 778,
        0xD9 => 722,
        0xDA => 722,
        0xDB => 722,
        0xDC => 722,
        0xDD => 667,
        0xDE => 667,
        0xDF => 611,
        0xE0 => 556,
        0xE1 => 556,
        0xE2 => 556,
        0xE3 => 556,
        0xE4 => 556,
        0xE5 => 556,
        0xE6 => 889,
        0xE7 => 500,
        0xE8 => 556,
        0xE9 => 556,
        0xEA => 556,
        0xEB => 556,
        0xEC => 278,
        0xED => 278,
        0xEE => 278,
        0xEF => 278,
        0xF0 => 556,
        0xF1 => 556,
        0xF2 => 556,
        0xF3 => 556,
        0xF4 => 556,
        0xF5 => 556,
        0xF6 => 556,
        0xF7 => 584,
        0xF8 => 611,
        0xF9 => 556,
        0xFA => 556,
        0xFB => 556,
        0xFC => 556,
        0xFD => 500,
        0xFE => 556,
        0xFF => 500,
        _ => 556,  // bytes without a glyph metric
    }
}

/// Helvetica advance width of `byte` in units per 1000 em.
pub fn helvetica_width(byte: u8) -> (width: u32)
    ensures
        width == helvetica_advance(byte),
{
    match byte {
        0x20 => 278,  // space
        0x21 => 278,  // !
        0x22 => 355,  // "
        0x23 => 556,  // #
        0x24 => 556,  // $
        0x25 => 889,  // %
        0x26 => 667,  // &
        0x27 => 191,  // '
        0x28 => 333,  // (
        0x29 => 333,  // )
        0x2A => 389,  // *
        0x2B => 584,  // +
        0x2C => 278,  // ,
        0x2D => 333,  // -
        0x2E => 278,  // .
        0x2F => 278,  // /
        0x30 | 0x31 | 0x32 | 0x33 | 0x34 | 0x35 | 0x36 | 0x37 | 0x38 | 0x39 => 556,
        0x3A => 278,  // :
        0x3B => 278,  // ;
        0x3C => 584,  // <
        0x3D => 584,  // =
        0x3E => 584,  // >
        0x3F => 556,  // ?
        0x40 => 1015,  // @
        0x41 => 667,  // A
        0x42 => 667,  // B
        0x43 => 722,  // C
        0x44 => 722,  // D
        0x45 => 667,  // E
        0x46 => 611,  // F
        0x47 => 778,  // G
        0x48 => 722,  // H
        0x49 => 278,  // I
        0x4A => 500,  // J
        0x4B => 667,  // K
        0x4C => 556,  // L
        0x4D => 833,  // M
        0x4E => 722,  // N
        0x4F => 778,  // O
        0x50 => 667,  // P
        0x51 => 778,  // Q
        0x52 => 722,  // R
        0x53 => 667,  // S
        0x54 => 611,  // T
        0x55 => 722,  // U
        0x56 => 667,  // V
        0x57 => 944,  // W
        0x58 => 667,  // X
        0x59 => 667,  // Y
        0x5A => 611,  // Z
        0x5B => 278,  // [
        0x5C => 278,  // \
        0x5D => 278,  // ]
        0x5E => 469,  // ^
        0x5F => 556,  // _
        0x60 => 333,  // `
        0x61 => 556,  // a
        0x62 => 556,  // b
        0x63 => 500,  // c
        0x64 => 556,  // d
        0x65 => 556,  // e
        0x66 => 278,  // f
        0x67 => 556,  // g
        0x68 => 556,  // h
        0x69 => 222,  // i
        0x6A => 222,  // j
        0x6B => 500,  // k
        0x6C => 222,  // l
        0x6D => 833,  // m
        0x6E => 556,  // n
        0x6F => 556,  // o
        0x70 => 556,  // p
        0x71 => 556,  // q
        0x72 => 333,  // r
        0x73 => 500,  // s
        0x74 => 278,  // t
        0x75 => 556,  // u
        0x76 => 500,  // v
        0x77 => 722,  // w
        0x78 => 500,  // x
        0x79 => 500,  // y
        0x7A => 500,  // z
        0x7B => 334,  // {
        0x7C => 260,  // |
        0x7D => 334,  // }
        0x7E => 584,  // ~
        0xA0 => 278,  // non-breaking space
        0xA1 => 333,
        0xA2 => 556,
        0xA3 => 556,
        0xA4 => 556,
        0xA5 => 556,
        0xA6 => 260,
        0xA7 => 556,
        0xA8 => 333,
        0xA9 => 737,
        0xAA => 370,
        0xAB => 556,
        0xAC => 584,
        0xAD => 333,  // soft hyphen
        0xAE => 737,
        0xAF => 333,
        0xB0 => 400,
        0xB1 => 584,
        0xB2 => 333,
        0xB3 => 333,
        0xB4 => 333,
        0xB5 => 556,
        0xB6 => 537,
        0xB7 => 278,
        0xB8 => 333,
        0xB9 => 333,
        0xBA => 365,
        0xBB => 556,
        0xBC => 834,
        0xBD => 834,
        0xBE => 834,
        0xBF => 611,
        0xC0 => 667,
        0xC1 => 667,
        0xC2 => 667,
        0xC3 => 667,
        0xC4 => 667,
        0xC5 => 667,
        0xC6 => 1000,
        0xC7 => 722,
        0xC8 => 667,
        0xC9 => 667,
        0xCA => 667,
        0xCB => 667,
        0xCC => 278,
        0xCD => 278,
        0xCE => 278,
        0xCF => 278,
        0xD0 => 722,
        0xD1 => 722,
        0xD2 => 778,
        0xD3 => 778,
        0xD4 => 778,
        0xD5 => 778,
        0xD6 => 778,
        0xD7 => 584,
        0xD8 => 778,
        0xD9 => 722,
        0xDA => 722,
        0xDB => 722,
        0xDC => 722,
        0xDD => 667,
        0xDE => 667,
        0xDF => 611,
        0xE0 => 556,
        0xE1 => 556,
        0xE2 => 556,
        0xE3 => 556,
        0xE4 => 556,
        0xE5 => 556,
        0xE6 => 889,
        0xE7 => 500,
        0xE8 => 556,
        0xE9 => 556,
        0xEA => 556,
        0xEB => 556,
        0xEC => 278,
        0xED => 278,
        0xEE => 278,
        0xEF => 278,
        0xF0 => 556,
        0xF1 => 556,
        0xF2 => 556,
        0xF3 => 556,
        0xF4 => 556,
        0xF5 => 556,
        0xF6 => 556,
        0xF7 => 584,
        0xF8 => 611,
        0xF9 => 556,
        0xFA => 556,
        0xFB => 556,
        0xFC => 556,
        0xFD => 500,
        0xFE => 556,
        0xFF => 500,
        _ => 556,  // bytes without a glyph metric
    }
}

/// Sum of the Helvetica advance widths of `bytes`.
pub open spec fn advance_total(bytes: Seq<u8>) -> int
    decreases bytes.len(),
{
    if bytes.len() == 0 {
        0
    } else {
        advance_total(bytes.drop_last()) + helvetica_advance(bytes.last())
    }
}

/// Every advance width lies between 191 (the apostrophe) and 1015 (`@`).
pub proof fn lemma_advance_bounds(byte: u8)
    ensures
        191 <= helvetica_advance(byte) <= 1015,
{
}

/// Sum of the Helvetica advance widths of `bytes` (units per 1000 em).
pub fn advance_sum(bytes: &[u8]) -> (total: u128)
    ensures
        total == advance_total(bytes@),
{
    let mut total: u128 = 0;
    for i in 0..bytes.len()
        invariant
            total == advance_total(bytes@.take(i as int)),
            total <= 1015 * i,
    {
        proof {
            lemma_advance_bounds(bytes@[i as int]);
            assert(bytes@.take(i + 1).drop_last() =~= bytes@.take(i as int));
        }
        total = total + helvetica_width(bytes[i]) as u128;
    }
    proof {
        assert(bytes@.take(bytes@.len() as int) =~= bytes@);
    }
    total
}

} // verus!
