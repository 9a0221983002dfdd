use ssh4::gui::status::{
    heartbeat_text, idle_text, match_counter, size_text, status_shown, tab_title, traffic_text,
};

#[test]
fn status_bar_texts() {
    assert_eq!(tab_title(None), "New connection");
    assert_eq!(tab_title(Some("root@web")), "root@web");
    assert_eq!(size_text(80, 24), "80×24");
    assert_eq!(traffic_text(512, 1536), "↑512 B ↓1.5 KiB");
    assert_eq!(idle_text(42), "idle 42s");
    assert_eq!(heartbeat_text(3, 1, 2048, 7), "hb 3s ago · q1 · buf2048 · to7");
    assert!(status_shown(5999));
    assert!(!status_shown(6000));
}

#[test]
fn find_bar_counter() {
    assert_eq!(match_counter(true, 0, 0), "");
    assert_eq!(match_counter(false, 0, 0), "No matches");
    assert_eq!(match_counter(false, 12, 2), "3/12");
}
