use ssh4::ssh_client::{
    check_connectable, failure_message, friendly_error, write_chunks, ConnParams, Secret,
    SshFailure, SSH_WRITE_CHUNK,
};

#[test]
fn identity_formats() {
    let p = ConnParams {
        host: "h".into(),
        user: "u".into(),
        ..Default::default()
    };
    assert_eq!(p.identity(), "u@h");
    assert_eq!(p.addr(), "h:22");
}

#[test]
fn debug_hides_password() {
    let p = ConnParams {
        password: Some(Secret::new("secret")),
        ..Default::default()
    };
    let s = p.debug_repr();
    assert!(!s.contains("secret"));
}

#[test]
fn secret_exposes_value() {
    let s = Secret::new("hunter2");
    assert_eq!(s.expose(), "hunter2");
    assert_eq!(s.debug_repr(), "Secret(***)");
}

#[test]
fn identity_without_user_is_host() {
    let p = ConnParams {
        host: "example.com".into(),
        port: 2200,
        ..Default::default()
    };
    assert_eq!(p.identity(), "example.com");
    assert_eq!(p.addr(), "example.com:2200");
}

#[test]
fn debug_repr_lists_fields() {
    let p = ConnParams {
        host: "h".into(),
        user: "u\"q".into(),
        password: Some(Secret::new("pw")),
        key_path: Some("k".into()),
        ..Default::default()
    };
    assert_eq!(
        p.debug_repr(),
        "ConnParams { host: \"h\", port: 22, user: \"u\\\"q\", password: Some(Secret(***)), key_path: Some(\"k\"), timeout_secs: 15, verbose: false }"
    );
}

#[test]
fn connect_checks_credentials_first() {
    let p = ConnParams { host: "h".into(), user: "u".into(), ..Default::default() };
    let err = check_connectable(&p).unwrap_err();
    assert!(err.contains("password or key"));
    assert_eq!(check_connectable(&ConnParams::default()).unwrap_err(), "No host given");
    let p = ConnParams { host: "h".into(), ..Default::default() };
    assert_eq!(check_connectable(&p).unwrap_err(), "No username given");
    let p = ConnParams { host: "h".into(), user: "u".into(), key_path: Some("k".into()), ..Default::default() };
    assert!(check_connectable(&p).is_ok());
}

#[test]
fn failure_messages() {
    assert_eq!(failure_message(&SshFailure::Auth), "Authentication failed: check username, password, or key");
    assert_eq!(
        failure_message(&SshFailure::VersionMismatch { our: "a".into(), their: "b".into() }),
        "SSH version mismatch (local a, remote b)"
    );
    assert_eq!(failure_message(&SshFailure::NetworkTimedOut), "Connection timed out");
    assert_eq!(friendly_error(&ssh::SshError::AuthError), "Authentication failed: check username, password, or key");
    assert_eq!(friendly_error(&ssh::SshError::KexError("x".into())), "Key exchange failed: x");
    let io = std::io::Error::new(std::io::ErrorKind::ConnectionRefused, "r");
    assert_eq!(friendly_error(&ssh::SshError::IoError(io)), "Connection refused by host");
}

#[test]
fn writes_are_chunked() {
    let data = vec![7u8; SSH_WRITE_CHUNK * 2 + 1];
    let chunks = write_chunks(&data);
    assert_eq!(chunks.iter().map(|c| c.len()).collect::<Vec<_>>(), vec![4096, 4096, 1]);
    assert!(write_chunks(&[]).is_empty());
}

#[test]
fn connect_requires_credentials() {
    let p = ConnParams { host: "h".into(), user: "u".into(), ..Default::default() };
    let err = match check_connectable(&p) {
        Ok(_) => panic!("expected error"),
        Err(e) => e,
    };
    assert!(err.contains("password or key"));
}

#[test]
fn error_details_reach_the_message() {
    assert_eq!(
        friendly_error(&ssh::SshError::VersionDismatchError { our: "SSH-2.0-a".into(), their: "SSH-1.5-b".into() }),
        "SSH version mismatch (local SSH-2.0-a, remote SSH-1.5-b)"
    );
    assert_eq!(friendly_error(&ssh::SshError::SshPubKeyError("bad pem".into())), "Could not parse private key: bad pem");
    assert_eq!(friendly_error(&ssh::SshError::GeneralError("x".into())), "SSH error: Ssh Error: x");
    let p = ConnParams { host: "h\u{1b}".into(), ..Default::default() };
    assert!(p.debug_repr().starts_with("ConnParams { host: \"h\\u{1b}\""));
}
