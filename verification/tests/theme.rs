use ssh4::gui::theme::{
    ansi_palette, current_index, idx256, index_by_name, theme_is_dark, theme_name, vt_color, Rgb,
    ThemeSelection, VtColor, Weight, THEME_COUNT,
};

#[test]
fn theme_names_resolve() {
    assert_eq!(index_by_name("lavender"), Some(0));
    assert_eq!(index_by_name("Amber Phosphor"), Some(1));
    assert_eq!(index_by_name("nope"), None);
}

#[test]
fn ansi_palettes_distinct_hues() {
    for t in 0..THEME_COUNT {
        let p = ansi_palette(t);
        assert_ne!(p[1], p[2], "{}", theme_name(t));
        assert_ne!(p[2], p[4], "{}", theme_name(t));
    }
}

#[test]
fn theme_lookup_is_ascii_case_insensitive_only() {
    assert_eq!(index_by_name("GREEN PHOSPHOR"), Some(2));
    assert_eq!(index_by_name("green phosphor "), None);
    assert_eq!(index_by_name(""), None);
    assert!(!theme_is_dark(0));
    assert!(theme_is_dark(1));
}

#[test]
fn current_index_clamps() {
    assert_eq!(current_index(0), 0);
    assert_eq!(current_index(2), 2);
    assert_eq!(current_index(99), 2);
}

#[test]
fn xterm_cube_and_ramp() {
    let p = ansi_palette(0);
    assert_eq!(idx256(1, &p), p[1]);
    assert_eq!(idx256(16, &p), Rgb { r: 0, g: 0, b: 0 });
    assert_eq!(idx256(231, &p), Rgb { r: 255, g: 255, b: 255 });
    assert_eq!(idx256(196, &p), Rgb { r: 255, g: 0, b: 0 });
    assert_eq!(idx256(232, &p), Rgb { r: 8, g: 8, b: 8 });
    assert_eq!(idx256(255, &p), Rgb { r: 238, g: 238, b: 238 });
}

#[test]
fn vt_colors_resolve() {
    let p = ansi_palette(1);
    let d = Rgb { r: 1, g: 2, b: 3 };
    assert_eq!(vt_color(VtColor::Default, d, &p), d);
    assert_eq!(vt_color(VtColor::Idx(2), d, &p), Rgb { r: 0x9b, g: 0xb9, b: 0x53 });
    assert_eq!(vt_color(VtColor::Rgb(9, 8, 7), d, &p), Rgb { r: 9, g: 8, b: 7 });
    assert_eq!(Weight::Bold.family_name(), "inter-700");
}

#[test]
fn theme_selection_starts_first_and_clamps() {
    let mut t = ThemeSelection::new();
    assert_eq!(t.current_index(), 0);
    t.set_current(1);
    assert_eq!(t.current_index(), 1);
    t.set_current(9);
    assert_eq!(t.current_index(), 2);
}
