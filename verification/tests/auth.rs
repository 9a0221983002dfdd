use ssh4::auth::{parse_host, HostSpec, default_key_names, first_present_key};

#[test]
fn parse_plain_host() {
    assert_eq!(
        parse_host("example.com"),
        HostSpec {
            user: "".into(),
            host: "example.com".into(),
            port: 22
        }
    );
}

#[test]
fn parse_host_port() {
    let h = parse_host("example.com:2222");
    assert_eq!(h.host, "example.com");
    assert_eq!(h.port, 2222);
    assert!(h.user.is_empty());
}

#[test]
fn parse_user_host() {
    let h = parse_host("keith@example.com");
    assert_eq!(h.user, "keith");
    assert_eq!(h.host, "example.com");
    assert_eq!(h.port, 22);
}

#[test]
fn parse_user_host_port() {
    let h = parse_host("keith@example.com:2200");
    assert_eq!(h.user, "keith");
    assert_eq!(h.host, "example.com");
    assert_eq!(h.port, 2200);
}

#[test]
fn invalid_port_falls_back_to_22() {
    assert_eq!(parse_host("h:notaport").port, 22);
    assert_eq!(parse_host("h:99999").port, 22);
}

#[test]
fn parse_host_splits_at_first_at_and_last_colon() {
    let h = parse_host("a@b@c:1:2");
    assert_eq!(h.user, "a");
    assert_eq!(h.host, "b@c:1");
    assert_eq!(h.port, 2);
    assert_eq!(parse_host("h:+80").port, 80);
    assert_eq!(parse_host("h:").port, 22);
    assert_eq!(parse_host("h:65535").port, 65535);
}

#[test]
fn key_names_in_priority_order() {
    assert_eq!(
        default_key_names(),
        vec!["id_ed25519", "id_rsa", "id_ecdsa", "id_ed25519_sk", "id_ecdsa_sk"]
    );
}

#[test]
fn first_present_key_prefers_earlier_names() {
    assert_eq!(first_present_key(&vec![false; 5]), None);
    assert_eq!(first_present_key(&vec![false, true, false, false, false]), Some(1));
    assert_eq!(first_present_key(&vec![true, true, false, false, false]), Some(0));
}

#[test]
fn host_forms_read_back() {
    let a = parse_host("ops@db.internal:2200");
    assert_eq!((a.user.as_str(), a.host.as_str(), a.port), ("ops", "db.internal", 2200));
    let b = parse_host("db.internal:2200");
    assert_eq!((b.user.as_str(), b.host.as_str(), b.port), ("", "db.internal", 2200));
    let c = parse_host("db.internal");
    assert_eq!((c.user.as_str(), c.host.as_str(), c.port), ("", "db.internal", 22));
}
