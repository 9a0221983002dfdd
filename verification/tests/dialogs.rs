use ssh4::config::Snippet;
use ssh4::gui::dialogs::{
    filter_palette, group_of, human_size, palette_entries, paste_prompt, shortcut_for,
    snippet_form_result, upload_allowed, Modal, PaletteAction,
};

#[test]
fn palette_filter_is_case_insensitive() {
    let entries = palette_entries(&Vec::new());
    let hits = filter_palette(&entries, "FOCUS");
    assert_eq!(hits.len(), 1);
    assert_eq!(entries[hits[0]].0, "Toggle focus mode");
}

#[test]
fn palette_empty_query_lists_all() {
    let entries = palette_entries(&Vec::new());
    assert_eq!(filter_palette(&entries, "").len(), entries.len());
}

#[test]
fn palette_includes_themes_and_snippets() {
    let snippets = vec![Snippet { name: "uptime".into(), command: "uptime".into() }];
    let entries = palette_entries(&snippets);
    assert!(entries.iter().any(|(l, _)| l == "Theme: Lavender"));
    assert!(entries
        .iter()
        .any(|(l, a)| l == "Snippet: uptime" && *a == PaletteAction::RunSnippet(0)));
}

#[test]
fn palette_order_and_trimmed_query() {
    let entries = palette_entries(&Vec::new());
    assert_eq!(entries.len(), 10);
    assert_eq!(entries[0], ("New tab".to_string(), PaletteAction::NewTab));
    assert_eq!(entries[9], ("Theme: Green Phosphor".to_string(), PaletteAction::SetTheme(2)));
    assert_eq!(filter_palette(&entries, "  tab  "), vec![0, 1, 2]);
    assert_eq!(filter_palette(&entries, "   "), (0..10).collect::<Vec<usize>>());
    assert_eq!(filter_palette(&entries, "zzz"), Vec::<usize>::new());
}

#[test]
fn palette_groups_and_shortcuts() {
    assert_eq!(group_of(PaletteAction::SearchTabs), "NAVIGATE");
    assert_eq!(group_of(PaletteAction::ToggleSync), "SESSION");
    assert_eq!(group_of(PaletteAction::SetTheme(1)), "TOOLS");
    assert_eq!(shortcut_for(PaletteAction::ToggleFocus), Some("F11"));
    assert_eq!(shortcut_for(PaletteAction::OpenFileTools), Some("Ctrl Shift K"));
    assert_eq!(shortcut_for(PaletteAction::NewTab), None);
}

#[test]
fn human_sizes() {
    assert_eq!(human_size(0), "0 B");
    assert_eq!(human_size(1023), "1023 B");
    assert_eq!(human_size(1024), "1.0 KiB");
    assert_eq!(human_size(1536), "1.5 KiB");
    assert_eq!(human_size(1048575), format!("{:.1} KiB", 1048575f64 / 1024.0));
    assert_eq!(human_size(1048576), "1.0 MiB");
    assert_eq!(human_size(5 * 1048576 + 104858), format!("{:.1} MiB", (5 * 1048576 + 104858) as f64 / 1048576.0));
    for b in [1280u64, 3328, 2_621_440, 123_456_789, u64::MAX, u64::MAX - 1000, 1 << 60] {
        let expected = if b >= 1_048_576 {
            format!("{:.1} MiB", b as f64 / 1_048_576.0)
        } else {
            format!("{:.1} KiB", b as f64 / 1024.0)
        };
        assert_eq!(human_size(b), expected, "{b}");
    }
}

#[test]
fn modal_open_state() {
    assert!(!Modal::Closed.is_open());
    assert!(Modal::Paste { text: String::new() }.is_open());
    assert!(Modal::Palette { query: String::new(), selected: 0 }.is_open());
}

#[test]
fn dialog_texts_and_rules() {
    assert_eq!(paste_prompt("a\nb\r\nc\n"), "Clipboard contains 3 lines. Choose how to send them.");
    assert_eq!(snippet_form_result("  up ", " uptime\n"), Some(("up".to_string(), "uptime".to_string())));
    assert_eq!(snippet_form_result("up", "   "), None);
    assert_eq!(snippet_form_result("", "ls"), None);
    assert!(upload_allowed(" upload_1 "));
    assert!(!upload_allowed("  "));
}
