//! The colours of the dark theme.

use vstd::prelude::*;

verus! {

/// A colour as Windows takes it: blue, green and red, from the highest byte down.
pub open spec fn rgb_spec(r: u8, g: u8, b: u8) -> u32 {
    (r + 0x100 * g + 0x1_0000 * b) as u32
}

/// A colour as Windows takes it.
pub fn rgb(r: u8, g: u8, b: u8) -> (c: u32)
    ensures
        c == rgb_spec(r, g, b),
{
    r as u32 + 0x100 * (g as u32) + 0x1_0000 * (b as u32)
}

// ---- palette --------------------------------------------------------------------------
pub const BG: u32 = 0x1B1818;

pub const SEPARATOR: u32 = 0x332C2C;

/// Section headings.
pub const ACCENT: u32 = 0xFAA560;

/// Row labels: present but recessive.
pub const LABEL: u32 = 0x968C8A;

/// The numbers themselves.
pub const VALUE: u32 = 0xEEEAE8;

/// Secondary detail on a value row.
pub const DIM: u32 = 0x847A78;

pub const OK: u32 = 0x80DE4A;

pub const WARN: u32 = 0x15CCFA;

pub const BAD: u32 = 0x7171F8;

pub const IDLE: u32 = 0xB8A394;

/// Checkbox: unticked box interior, and the tick itself.
pub const CHECK_EMPTY: u32 = 0x262020;

pub const CHECK_BORDER: u32 = 0x645A58;

pub const CHECK_MARK: u32 = 0xFFFFFF;

pub const BTN_FACE: u32 = 0x2E2727;

pub const BTN_FACE_DOWN: u32 = 0x443A3A;

pub const BTN_BORDER: u32 = 0x4C4242;

pub const BTN_TEXT: u32 = 0xEBE6E4;

/// The palette in red, green and blue.
pub proof fn law_palette()
    ensures
        BG == rgb_spec(24, 24, 27),
        SEPARATOR == rgb_spec(44, 44, 51),
        ACCENT == rgb_spec(96, 165, 250),
        LABEL == rgb_spec(138, 140, 150),
        VALUE == rgb_spec(232, 234, 238),
        DIM == rgb_spec(120, 122, 132),
        OK == rgb_spec(74, 222, 128),
        WARN == rgb_spec(250, 204, 21),
        BAD == rgb_spec(248, 113, 113),
        IDLE == rgb_spec(148, 163, 184),
        CHECK_EMPTY == rgb_spec(32, 32, 38),
        CHECK_BORDER == rgb_spec(88, 90, 100),
        CHECK_MARK == rgb_spec(255, 255, 255),
        BTN_FACE == rgb_spec(39, 39, 46),
        BTN_FACE_DOWN == rgb_spec(58, 58, 68),
        BTN_BORDER == rgb_spec(66, 66, 76),
        BTN_TEXT == rgb_spec(228, 230, 235),
{
}

/// No two colours look the same to Windows.
pub proof fn law_colours_are_distinct(r: u8, g: u8, b: u8, s: u8, h: u8, c: u8)
    requires
        rgb_spec(r, g, b) == rgb_spec(s, h, c),
    ensures
        r == s && g == h && b == c,
{
}

} // verus!
