//! Types of the keyboard/mouse input side.
use vstd::prelude::*;

verus! {

/// A phase of a bracketed paste.
#[derive(Debug, Clone, PartialEq, Eq)]
pub enum PasteEvent {
    Start,
    End,
    Continue,
}

/// Bit of [`Modifier`]: shift.
pub const SHIFT: u8 = 1;
/// Bit of [`Modifier`]: alt.
pub const ALT: u8 = 2;
/// Bit of [`Modifier`]: control.
pub const CTRL: u8 = 4;
/// Bit of [`Modifier`]: keypad key.
pub const KEYPAD: u8 = 8;
/// Bit of [`Modifier`]: Sun function key encoding.
pub const SUN: u8 = 16;
/// Bit of [`Modifier`]: VT52 encoding.
pub const VT52: u8 = 32;

/// A set of key modifiers.
#[derive(Debug, Clone, Copy, PartialEq, Eq, Structural)]
pub struct Modifier(pub u8);

impl Modifier {
    /// The set with these bits.
    pub fn from_bits(bits: u8) -> (r: Modifier)
        ensures
            r.0 == bits,
    {
        Modifier(bits)
    }

    /// No modifier.
    pub fn empty() -> (r: Modifier)
        ensures
            r.0 == 0,
    {
        Modifier(0)
    }

    /// The bits of the set.
    pub fn bits(&self) -> (r: u8)
        ensures
            r == self.0,
    {
        self.0
    }

    /// Whether every modifier of `other` is in this set.
    pub fn contains(&self, other: Modifier) -> (r: bool)
        ensures
            r == (self.0 & other.0 == other.0),
    {
        self.0 & other.0 == other.0
    }

    /// The modifiers of both sets.
    pub fn union(self, other: Modifier) -> (r: Modifier)
        ensures
            r.0 == self.0 | other.0,
    {
        Modifier(self.0 | other.0)
    }
}

/// A mouse event.
#[derive(Debug, Clone, PartialEq, Eq)]
pub enum MouseEvent {
    Button(u8, Modifier),
    ButtonRelease(u8, Modifier),
    Motion(u16, u16),
}

/// Common input reports.
#[derive(Debug, Clone, PartialEq, Eq)]
pub enum InputReport {
    /// `CSI Ps1 ; Ps2 R`
    CursorPosition(u16, u16),
    /// `CSI Pl ; Pc ; Pp R`
    CursorPositionPage(u16, u16, u16),
    /// `CSI Pn n` or `CSI ? Pn n`
    DeviceStatus(bool, u16),
    /// `CSI ? Pn1 ; Pn2 n`
    DeviceStatus2(bool, u16, u16),
    /// `CSI Ps1 ; ... c`: a VT level and feature bits.
    DeviceAttributes1(u8, u32),
    /// `CSI > Pp ; Pv ; Pc c`
    DeviceAttributes2(u16, u16, u8),
    /// `CSI Ps1 ; Ps2 $ y` or `CSI ? Ps1 ; Ps2 $ y`
    ReportMode(bool, u16, u8),
    /// `CSI 1 t` or `CSI 2 t`
    ReportWindowState(bool),
    /// `CSI 3 ; x ; y t`
    ReportWindowPosition(u16, u16),
    /// `CSI 4 ; h ; w t`
    ReportWindowSizePixel(u16, u16),
    /// `CSI 5 ; h ; w t`
    ReportTextSizeCharacter(u16, u16),
    /// `CSI 6 ; h ; w t`
    ReportScreenSizeCharacter(u16, u16),
    /// `OSC Ps1 ; rgb:... BEL`
    ReportDynamicColor(u8, u16, u16, u16),
    /// `ESC I`
    FocusIn,
    /// `ESC O`
    FocusOut,
}

/// What the key-sequence matcher found at the front of some bytes.
#[derive(Debug, Clone, PartialEq, Eq, Structural)]
pub enum MatchResult {
    /// No key, and at least this many bytes will not start one.
    NoMatch { length: u8 },
    /// More bytes are needed to decide.
    PendingMatch,
    /// A key of this many bytes: a packed char or key code with modifiers.
    Match { length: u8, what: u32 },
}

/// The replacement character, for undecodable input.
pub const REPLACEMENT: u32 = 0xfffd;

/// A char and its modifiers packed into one number: the char in the low 24
/// bits, the modifier bits above.
pub open spec fn packed(c: u32, modifiers: u8) -> u32 {
    c | ((modifiers as u32) << 24u32)
}

pub fn pack_mod(c: u32, modifiers: u8) -> (r: u32)
    ensures
        r == packed(c, modifiers),
{
    c | ((modifiers as u32) << 24u32)
}

/// `c`, with ALT if `alt`.
pub fn pack(c: u32, alt: bool) -> (r: u32)
    ensures
        r == packed(c, if alt { ALT } else { 0 }),
{
    pack_mod(c, if alt { ALT } else { 0 })
}

/// Whether `c` is a Unicode scalar value.
pub open spec fn is_scalar(c: u32) -> bool {
    c < 0xd800 || 0xe000 <= c <= 0x10ffff
}

/// A decoded char, packed: the replacement character (without ALT) when the
/// code point is not a scalar value.
pub open spec fn packed_char(c: u32, alt: bool, length: u8) -> MatchResult {
    if is_scalar(c) {
        MatchResult::Match { length, what: packed(c, if alt { ALT } else { 0 }) }
    } else {
        MatchResult::Match { length, what: packed(REPLACEMENT, 0) }
    }
}

fn char_match(c: u32, alt: bool, length: u8) -> (r: MatchResult)
    ensures
        r == packed_char(c, alt, length),
{
    if c < 0xd800 || (c >= 0xe000 && c <= 0x10ffff) {
        MatchResult::Match { length, what: pack(c, alt) }
    } else {
        MatchResult::Match { length, what: pack(REPLACEMENT, false) }
    }
}

/// A one-byte char, after an ESC if `alt`.
pub fn utf8_1(alt: bool, byte: u8) -> (r: MatchResult)
    ensures
        r == packed_char(byte as u32, alt, if alt { 2 } else { 1 }),
{
    char_match(byte as u32, alt, if alt { 2 } else { 1 })
}

/// The code point of a two-byte sequence.
pub open spec fn code2(b0: u8, b1: u8) -> u32 {
    (((b0 & 0x1f) as u32) << 6u32) | ((b1 & 0x3f) as u32)
}

/// The code point of a three-byte sequence.
pub open spec fn code3(b0: u8, b1: u8, b2: u8) -> u32 {
    (((b0 & 0x0f) as u32) << 12u32) | (((b1 & 0x3f) as u32) << 6u32) | ((b2 & 0x3f) as u32)
}

/// The code point of a four-byte sequence.
pub open spec fn code4(b0: u8, b1: u8, b2: u8, b3: u8) -> u32 {
    (((b0 & 0x07) as u32) << 18u32) | (((b1 & 0x3f) as u32) << 12u32) | (((b2 & 0x3f) as u32)
        << 6u32) | ((b3 & 0x3f) as u32)
}

/// A two-byte char at the front of `bytes`, after an ESC if `alt`.
pub fn utf8_2(alt: bool, bytes: &[u8]) -> (r: MatchResult)
    ensures
        bytes@.len() < 2 ==> r == MatchResult::PendingMatch,
        bytes@.len() >= 2 ==> r == packed_char(
            code2(bytes@[0], bytes@[1]),
            alt,
            if alt { 3 } else { 2 },
        ),
{
    if bytes.len() < 2 {
        return MatchResult::PendingMatch;
    }
    let c = (((bytes[0] & 0x1f) as u32) << 6u32) | ((bytes[1] & 0x3f) as u32);
    char_match(c, alt, if alt { 3 } else { 2 })
}

/// A three-byte char at the front of `bytes`, after an ESC if `alt`.
pub fn utf8_3(alt: bool, bytes: &[u8]) -> (r: MatchResult)
    ensures
        bytes@.len() < 3 ==> r == MatchResult::PendingMatch,
        bytes@.len() >= 3 ==> r == packed_char(
            code3(bytes@[0], bytes@[1], bytes@[2]),
            alt,
            if alt { 4 } else { 3 },
        ),
{
    if bytes.len() < 3 {
        return MatchResult::PendingMatch;
    }
    let c = (((bytes[0] & 0x0f) as u32) << 12u32) | (((bytes[1] & 0x3f) as u32) << 6u32) | ((
    bytes[2] & 0x3f) as u32);
    char_match(c, alt, if alt { 4 } else { 3 })
}

/// A four-byte char at the front of `bytes`, after an ESC if `alt`.
pub fn utf8_4(alt: bool, bytes: &[u8]) -> (r: MatchResult)
    ensures
        bytes@.len() < 4 ==> r == MatchResult::PendingMatch,
        bytes@.len() >= 4 ==> r == packed_char(
            code4(bytes@[0], bytes@[1], bytes@[2], bytes@[3]),
            alt,
            if alt { 5 } else { 4 },
        ),
{
    if bytes.len() < 4 {
        return MatchResult::PendingMatch;
    }
    let c = (((bytes[0] & 0x07) as u32) << 18u32) | (((bytes[1] & 0x3f) as u32) << 12u32) | (((
    bytes[2] & 0x3f) as u32) << 6u32) | ((bytes[3] & 0x3f) as u32);
    char_match(c, alt, if alt { 5 } else { 4 })
}

/// A byte that cannot start a char: one replacement character.
pub fn invalid_utf8(_byte: u8) -> (r: MatchResult)
    ensures
        r == (MatchResult::Match { length: 1, what: packed(REPLACEMENT, 0) }),
{
    MatchResult::Match { length: 1, what: pack(REPLACEMENT, false) }
}

} // verus!
