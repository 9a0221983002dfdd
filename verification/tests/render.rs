use ssh4::gui::render::{display_width, link_at, tokenize, url_encode, TermOutput};

#[test]
fn url_encode_passes_unreserved() {
    assert_eq!(url_encode("rust-lang_1.0~ok"), "rust-lang_1.0~ok");
}

#[test]
fn url_encode_escapes_reserved_and_spaces() {
    assert_eq!(url_encode("a b&c=d?"), "a+b%26c%3Dd%3F");
    assert_eq!(url_encode("100%"), "100%25");
}

#[test]
fn url_encode_handles_utf8() {
    assert_eq!(url_encode("héllo"), "h%C3%A9llo");
}

#[test]
fn tokenize_columns_count_wide_chars_as_two() {
    let tokens = tokenize("你好 x");
    assert_eq!(tokens, vec![(0, "你好".to_string()), (5, "x".to_string())]);
}

#[test]
fn link_at_past_cjk_text() {
    let row = "你好 https://example.com tail";
    assert_eq!(link_at(row, 4), None);
    assert_eq!(
        link_at(row, 6).as_deref(),
        Some("https://example.com"),
        "column inside the URL must resolve despite preceding wide chars"
    );
}

#[test]
fn display_width_counts_cells() {
    assert_eq!(display_width("abc"), 3);
    assert_eq!(display_width("你好"), 4);
    assert_eq!(display_width("ｱｲｳ"), 3);
}

#[test]
fn links_drop_trailing_punctuation() {
    assert_eq!(link_at("see https://a.org/x).", 6).as_deref(), Some("https://a.org/x"));
    assert_eq!(link_at("at /etc/hosts:", 4).as_deref(), Some("/etc/hosts"));
    assert_eq!(link_at("~/notes.txt,", 0).as_deref(), Some("~/notes.txt"));
    assert_eq!(link_at("a / b", 2), None);
    assert_eq!(link_at("plain words", 3), None);
    assert_eq!(link_at("", 0), None);
}

#[test]
fn tokenize_skips_runs_of_white_space() {
    assert_eq!(
        tokenize("  a  bc\t"),
        vec![(2, "a".to_string()), (5, "bc".to_string())]
    );
    assert_eq!(tokenize(""), vec![]);
}

#[test]
fn term_output_starts_empty() {
    let o = TermOutput::default();
    assert!(o.input_sent.is_empty());
    assert!(o.paste_dialog.is_none());
    assert!(!o.upload_image);
}
