use net_lattice::Error;
use net_lattice::PlatformErrorCode;

#[test]
fn every_public_error_has_a_stable_display_message() {
    let cases = [
        (Error::PermissionDenied, "permission denied"),
        (Error::NotFound, "not found"),
        (Error::AlreadyExists, "already exists"),
        (Error::Unsupported, "unsupported operation"),
        (Error::InvalidState, "invalid state"),
        (Error::Disconnected, "event channel disconnected"),
    ];
    for (error, expected) in cases {
        assert_eq!(error.to_string(), expected);
    }
    assert_eq!(
        Error::Platform(PlatformErrorCode::Linux(-1)).to_string(),
        "platform error: Linux(-1)"
    );
}

#[test]
fn platform_error_codes_preserve_their_platform_and_value() {
    assert_eq!(PlatformErrorCode::Linux(-1), PlatformErrorCode::Linux(-1));
    assert_ne!(PlatformErrorCode::Windows(1), PlatformErrorCode::Darwin(1));
}

#[test]
fn is_helpers_match_only_their_own_variant() {
    assert!(Error::PermissionDenied.is_permission_denied());
    assert!(!Error::NotFound.is_permission_denied());

    assert!(Error::NotFound.is_not_found());
    assert!(!Error::AlreadyExists.is_not_found());

    assert!(Error::AlreadyExists.is_already_exists());
    assert!(!Error::Unsupported.is_already_exists());

    assert!(Error::Unsupported.is_unsupported());
    assert!(!Error::InvalidState.is_unsupported());

    assert!(Error::InvalidState.is_invalid_state());
    assert!(!Error::Disconnected.is_invalid_state());

    assert!(Error::Disconnected.is_disconnected());
    assert!(!Error::Platform(PlatformErrorCode::Linux(-1)).is_disconnected());

    assert!(Error::Platform(PlatformErrorCode::Linux(-1)).is_platform());
    assert!(!Error::PermissionDenied.is_platform());
}
