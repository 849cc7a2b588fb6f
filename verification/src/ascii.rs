//! Characters that have a meaning in filters.
use vstd::prelude::*;

verus! {

/// `!`
pub const EXCLAMATION: u8 = 0x21;

/// `&`
pub const AMPERSAND: u8 = 0x26;

/// `(`
pub const PAREN_OPEN: u8 = 0x28;

/// `)`
pub const PAREN_CLOSE: u8 = 0x29;

/// `*`
pub const ASTERISK: u8 = 0x2a;

/// `-`
pub const HYPHEN: u8 = 0x2d;

/// `.`
pub const DOT: u8 = 0x2e;

/// `0`
pub const DIGIT_0: u8 = 0x30;

/// `9`
pub const DIGIT_9: u8 = 0x39;

/// `:`
pub const COLON: u8 = 0x3a;

/// `;`
pub const SEMICOLON: u8 = 0x3b;

/// `<`
pub const LESS: u8 = 0x3c;

/// `=`
pub const EQUALS: u8 = 0x3d;

/// `>`
pub const GREATER: u8 = 0x3e;

/// `A`
pub const UPPER_A: u8 = 0x41;

/// `F`
pub const UPPER_F: u8 = 0x46;

/// `Z`
pub const UPPER_Z: u8 = 0x5a;

/// `\`
pub const BACKSLASH: u8 = 0x5c;

/// `a`
pub const LOWER_A: u8 = 0x61;

/// `d`
pub const LOWER_D: u8 = 0x64;

/// `f`
pub const LOWER_F: u8 = 0x66;

/// `n`
pub const LOWER_N: u8 = 0x6e;

/// `z`
pub const LOWER_Z: u8 = 0x7a;

/// `|`
pub const BAR: u8 = 0x7c;

/// `~`
pub const TILDE: u8 = 0x7e;

} // verus!
