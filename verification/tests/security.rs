//! Identifiers, credentials and the socket's cleanup.
use meridian_relay::config::parse_octal;
use meridian_relay::security::{
    can_be_dashed, dashed_udid, sanitize_udid_for_path, validate_udid, PeerCredentials,
    SocketCleanupGuard,
};

#[test]
fn test_validate_udid_valid() {
    assert!(validate_udid("00008110-000C694914F3801E").is_ok());
    assert!(validate_udid("00008110000C694914F3801E").is_ok());
    assert!(validate_udid("ABCDEF1234567890").is_ok());
}

#[test]
fn test_validate_udid_invalid() {
    assert!(validate_udid("").is_err());
    assert!(validate_udid("../etc/passwd").is_err());
    assert!(validate_udid("abc/def").is_err());
    assert!(validate_udid("abc\\def").is_err());
    assert!(validate_udid("abc..def").is_err());
    assert!(validate_udid(&"a".repeat(100)).is_err());
    assert!(validate_udid("abc def").is_err()); // space
}

#[test]
fn test_validate_udid_trimmed() {
    assert!(validate_udid("  00008110-000C694914F3801E  ").is_ok());
}

#[test]
fn only_valid_identifiers_get_a_name() {
    for udid in ["AB \0", "", "  ", "\0", "a b", "AB\n\0\0", "x"] {
        assert!(validate_udid(udid).is_err(), "{udid:?}");
        assert_eq!(sanitize_udid_for_path(udid), None, "{udid:?}");
    }
    for udid in ["AB\0", " AB\0\0", "AB"] {
        assert!(validate_udid(udid).is_ok(), "{udid:?}");
        assert_eq!(sanitize_udid_for_path(udid).unwrap(), "AB");
    }
}

#[test]
fn security_test_sanitize_udid_for_path() {
    assert_eq!(
        sanitize_udid_for_path("00008110-000C694914F3801E").unwrap(),
        "00008110-000C694914F3801E"
    );
    assert!(sanitize_udid_for_path("../../../etc/passwd").is_none());
    assert!(sanitize_udid_for_path("").is_none());
}

#[test]
fn test_peer_credentials_allowed_empty() {
    let cred = PeerCredentials { uid: 1000, gid: 1000, pid: Some(1234) };
    assert!(cred.is_allowed(&[])); // empty = allow all
}

#[test]
fn test_peer_credentials_allowed_match() {
    let cred = PeerCredentials { uid: 1000, gid: 1000, pid: Some(1234) };
    assert!(cred.is_allowed(&[0, 1000, 65534]));
    assert!(!cred.is_allowed(&[0, 65534]));
}

#[test]
fn test_parse_octal_via_config() {
    assert_eq!(parse_octal("0660").unwrap(), 0o660);
    assert_eq!(parse_octal("0o600").unwrap(), 0o600);
    assert_eq!(parse_octal("600").unwrap(), 0o600);
}

#[test]
fn faults_of_identifiers() {
    assert_eq!(validate_udid(" \0").unwrap_err(), "UDID is empty");
    assert_eq!(validate_udid(&"a".repeat(65)).unwrap_err(), "UDID too long");
    assert!(validate_udid(&"a".repeat(64)).is_ok());
    assert_eq!(validate_udid("xyz").unwrap_err(), "UDID contains invalid characters");
    assert!(validate_udid("ABC\0\0").is_ok());
}

#[test]
fn dashes() {
    assert_eq!(dashed_udid("00008110000C694914F3801E"), "00008110-000C694914F3801E");
    assert_eq!(dashed_udid("00008110-000C694914F3801E"), "00008110-000C694914F3801E");
    assert_eq!(dashed_udid("ABCDEF1234567890"), "ABCDEF1234567890");
    assert!(can_be_dashed("00008110000C694914F3801E"));
    assert!(!can_be_dashed("0000811é000C694914F3801"));
}

#[test]
fn credentials_of_the_kernel() {
    let known = PeerCredentials::from_ucred(42, 1000, 100);
    assert_eq!((known.uid, known.gid, known.pid), (1000, 100, Some(42)));
    assert_eq!(PeerCredentials::from_ucred(0, 1, 2).pid, None);
    assert_eq!(PeerCredentials::from_ucred(-1, 1, 2).pid, None);
}

#[test]
fn guard_names_the_file_to_remove() {
    let mut guard = SocketCleanupGuard::new("/tmp/a.sock".into(), true);
    assert_eq!(guard.to_remove(true), Some("/tmp/a.sock".into()));
    assert_eq!(guard.to_remove(false), None);
    guard.disarm();
    assert_eq!(guard.to_remove(true), None);
    let unarmed = SocketCleanupGuard::new("/tmp/a.sock".into(), false);
    assert_eq!(unarmed.to_remove(true), None);
}
