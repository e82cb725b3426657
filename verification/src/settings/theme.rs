//! Theme decisions of the settings screen: the accent colour stored by the
//! desktop window manager, and the light / dark / system mode.
use vstd::prelude::*;
use crate::text::str_eq;

verus! {

/// The accent used when the system has none (Windows 11 Fluent blue).
pub const DEFAULT_ACCENT: (u8, u8, u8) = (0x00, 0x78, 0xD4);

/// The colour in an `AccentColor` value, laid out as `0xAABBGGRR`.
pub open spec fn accent_rgb(v: u32) -> (u8, u8, u8) {
    ((v % 256) as u8, ((v / 256) % 256) as u8, ((v / 65536) % 256) as u8)
}

/// Splits an `AccentColor` value (`0xAABBGGRR`) into red, green and blue.
pub fn parse_accent_color(v: u32) -> (rgb: (u8, u8, u8))
    ensures
        rgb == accent_rgb(v),
{
    let r = (v & 0xFF) as u8;
    let g = ((v >> 8) & 0xFF) as u8;
    let b = ((v >> 16) & 0xFF) as u8;
    assert(v & 0xFF == v % 256) by (bit_vector);
    assert((v >> 8) & 0xFF == (v / 256) % 256) by (bit_vector);
    assert((v >> 16) & 0xFF == (v / 65536) % 256) by (bit_vector);
    (r, g, b)
}

/// The accent colour from the stored `AccentColor` value, read by the
/// caller; `DEFAULT_ACCENT` when there is none.
pub fn accent_or_default(value: Option<u32>) -> (rgb: (u8, u8, u8))
    ensures
        rgb == match value {
            Some(v) => accent_rgb(v),
            None => DEFAULT_ACCENT,
        },
{
    match value {
        Some(v) => parse_accent_color(v),
        None => DEFAULT_ACCENT,
    }
}

/// Whether the system prefers a dark theme, from the stored
/// `AppsUseLightTheme` value read by the caller: dark when it is 0; light
/// when it cannot be read.
pub fn os_dark_from_setting(apps_use_light_theme: Option<u32>) -> (dark: bool)
    ensures
        dark == (apps_use_light_theme == Some(0u32)),
{
    match apps_use_light_theme {
        Some(light) => light == 0,
        None => false,
    }
}

pub open spec fn lighten(c: u8) -> u8 {
    if c + 20 > 255 {
        255
    } else {
        (c + 20) as u8
    }
}

/// The secondary accent: each component 20 brighter, at most 255.
pub fn secondary_accent(rgb: (u8, u8, u8)) -> (r: (u8, u8, u8))
    ensures
        r == (lighten(rgb.0), lighten(rgb.1), lighten(rgb.2)),
{
    (rgb.0.saturating_add(20), rgb.1.saturating_add(20), rgb.2.saturating_add(20))
}

/// The mode the theme button switches to: system, then light, then dark,
/// then system again; anything else goes to system.
pub open spec fn next_mode_spec(mode: Seq<char>) -> Seq<char> {
    if mode == "system"@ {
        "light"@
    } else if mode == "light"@ {
        "dark"@
    } else {
        "system"@
    }
}

pub fn next_theme_mode(mode: &str) -> (r: &'static str)
    ensures
        r@ == next_mode_spec(mode@),
{
    if str_eq(mode, "system") {
        "light"
    } else if str_eq(mode, "light") {
        "dark"
    } else {
        "system"
    }
}

/// Whether the dark icon set is used: the system's choice in `system` mode,
/// otherwise exactly in `dark` mode.
pub open spec fn dark_icons_spec(mode: Seq<char>, os_dark: bool) -> bool {
    if mode == "system"@ {
        os_dark
    } else {
        mode == "dark"@
    }
}

pub fn uses_dark_icons(mode: &str, os_dark: bool) -> (b: bool)
    ensures
        b == dark_icons_spec(mode@, os_dark),
{
    if str_eq(mode, "system") {
        os_dark
    } else {
        str_eq(mode, "dark")
    }
}

} // verus!
