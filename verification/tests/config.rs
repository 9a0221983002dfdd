use ssh4::config::{default_port, default_profile_name, Profile, Snippet};

#[test]
fn default_profile_name_rules() {
    assert_eq!(default_profile_name("u", "h"), "u@h");
    assert_eq!(default_profile_name("", "h"), "h");
}

#[test]
fn profile_and_snippet_defaults() {
    let p = Profile::default();
    assert_eq!(p.port, 0);
    assert!(p.host.is_empty() && p.user.is_empty());
    assert!(p.key_path.is_none() && p.remote_dir.is_none() && p.password.is_none());
    let s = Snippet::default();
    assert!(s.name.is_empty() && s.command.is_empty());
    assert_eq!(default_port(), 22);
}
