//! The colour palette, as `0xRRGGBB` values.

use vstd::prelude::*;

verus! {

/// The scheduler's colours.
pub struct Theme;

impl Theme {
    pub const BG: u32 = 0x0F1017;
    pub const PANEL: u32 = 0x1A1B23;
    pub const BORDER: u32 = 0x2A2B35;
    pub const TEXT: u32 = 0xE2E8F0;
    pub const TEXT_DIM: u32 = 0x64748B;
    pub const TEXT_MUTED: u32 = 0x94A3B8;
    pub const ACCENT: u32 = 0x6366F1;
    pub const SUCCESS: u32 = 0x34D399;
    pub const ERROR: u32 = 0xF87171;
    pub const SELECTED: u32 = 0x1E1F2A;
    pub const LAUNCHD: u32 = 0xA855F7;

    /// The red, green and blue parts of a colour.
    pub fn rgb(color: u32) -> (r: (u8, u8, u8))
        requires
            color <= 0xFF_FFFF,
        ensures
            r.0 == color / 0x1_0000,
            r.1 == (color / 0x100) % 0x100,
            r.2 == color % 0x100,
    {
        ((color / 0x1_0000) as u8, ((color / 0x100) % 0x100) as u8, (color % 0x100) as u8)
    }
}

} // verus!
