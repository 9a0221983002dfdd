use chrono::TimeZone;
use ssh4::transfer::{clip_name, remote_join, upload_report, TempCleanup};

#[test]
fn remote_join_rules() {
    assert_eq!(remote_join("/tmp", "a.png"), "/tmp/a.png");
    assert_eq!(remote_join("/tmp/", "a.png"), "/tmp/a.png");
    assert_eq!(remote_join("/", "a.png"), "/a.png");
    assert_eq!(remote_join("", "a.png"), "/a.png");
}

#[test]
fn remote_join_drops_every_trailing_slash() {
    assert_eq!(remote_join("/data///", "x"), "/data/x");
    assert_eq!(remote_join("rel", "x"), "rel/x");
}

#[test]
fn cleanup_record_arms_and_disarms() {
    let mut c = TempCleanup::new("/tmp/x".to_string());
    assert!(c.armed());
    c.disarm();
    assert!(!c.armed());
    assert_eq!(c.path, "/tmp/x");
}

#[test]
fn upload_results_report_status_and_typed_path() {
    let (s, ok, typed) = upload_report(Ok("/tmp/a.png".to_string()), true);
    assert_eq!(s, "Uploaded: /tmp/a.png (copied)");
    assert!(ok);
    assert_eq!(typed.as_deref(), Some("/tmp/a.png"));
    let (_, _, none) = upload_report(Ok("/tmp/a.png".to_string()), false);
    assert!(none.is_none());
    let (e, ok2, t2) = upload_report(Err("denied".to_string()), true);
    assert_eq!(e, "Upload failed: denied");
    assert!(!ok2);
    assert!(t2.is_none());
}

#[test]
fn clip_filename_format() {
    let t = chrono::Local.with_ymd_and_hms(2026, 6, 9, 14, 30, 5).unwrap();
    assert_eq!(clip_name(&t.format("%Y%m%d_%H%M%S").to_string()), "clip_20260609_143005.png");
}
