use winassoc::settings::theme::{
    accent_or_default, os_dark_from_setting,
    next_theme_mode, parse_accent_color, secondary_accent, uses_dark_icons, DEFAULT_ACCENT,
};

#[test]
fn parse_accent_color_bgr_layout() {
    let (r, g, b) = parse_accent_color(0x00FF8040);
    assert_eq!((r, g, b), (0x40, 0x80, 0xFF));
}

#[test]
fn parse_accent_color_with_alpha() {
    let (r, g, b) = parse_accent_color(0xFF000000);
    assert_eq!((r, g, b), (0, 0, 0));
}

#[test]
fn default_accent_is_fluent_blue() {
    assert_eq!(DEFAULT_ACCENT, (0x00, 0x78, 0xD4));
}

#[test]
fn secondary_accent_is_lighter_and_saturates() {
    assert_eq!(secondary_accent((0x00, 0x78, 0xD4)), (0x14, 0x8C, 0xE8));
    assert_eq!(secondary_accent((250, 236, 235)), (255, 255, 255));
}

#[test]
fn theme_button_cycles_through_modes() {
    assert_eq!(next_theme_mode("system"), "light");
    assert_eq!(next_theme_mode("light"), "dark");
    assert_eq!(next_theme_mode("dark"), "system");
    assert_eq!(next_theme_mode("other"), "system");
}

#[test]
fn dark_icons_follow_mode_or_system() {
    assert!(uses_dark_icons("system", true));
    assert!(!uses_dark_icons("system", false));
    assert!(uses_dark_icons("dark", false));
    assert!(!uses_dark_icons("light", true));
    assert!(!uses_dark_icons("other", true));
}

#[test]
fn accent_and_dark_mode_from_stored_values() {
    assert_eq!(accent_or_default(Some(0xFF10_2030)), (0x30, 0x20, 0x10));
    assert_eq!(accent_or_default(None), DEFAULT_ACCENT);
    assert!(os_dark_from_setting(Some(0)));
    assert!(!os_dark_from_setting(Some(1)));
    assert!(!os_dark_from_setting(None));
}
