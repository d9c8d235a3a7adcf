use enclave::auth::{platform_auth_capabilities, AuthHandle};
use enclave::error::Error;
use enclave::platform::{BackendKind, HostOs};

#[test]
fn request_presence_returns_not_implemented_when_available() {
    let handle = AuthHandle::new(BackendKind::SecureEnclave);
    for host in [HostOs::MacOs, HostOs::Windows, HostOs::Linux, HostOs::Other] {
        for touch_id in [false, true] {
            let result = handle.request_presence(host, touch_id, "test reason");
            assert!(
                result.is_err(),
                "request_presence must not return Ok(()) — it is a stub"
            );
        }
    }
}

#[test]
fn platform_auth_capabilities_does_not_panic() {
    for host in [HostOs::MacOs, HostOs::Windows, HostOs::Linux, HostOs::Other] {
        let caps = platform_auth_capabilities(host, true);
        let _ = caps.biometric_available;
        let _ = caps.password_available;
        let _ = caps.presence_caching;
    }
}

#[test]
fn presence_errors_tell_missing_hardware_from_missing_code() {
    let handle = AuthHandle::new(BackendKind::Tpm);
    let not_implemented = Err(Error::NotImplemented {
        feature: "standalone request_presence — use sign_with_presence for per-operation presence"
            .into(),
    });
    assert_eq!(handle.request_presence(HostOs::Windows, false, "why"), not_implemented);
    assert_eq!(handle.request_presence(HostOs::MacOs, true, "why"), not_implemented);
    let missing = Err(Error::PresenceNotAvailable);
    assert_eq!(handle.request_presence(HostOs::MacOs, false, "why"), missing);
    assert_eq!(handle.request_presence(HostOs::Linux, true, "why"), missing);
    assert_eq!(handle.request_presence(HostOs::Other, true, "why"), missing);
}

#[test]
fn capabilities_of_each_platform() {
    let handle = AuthHandle::new(BackendKind::Keyring);
    let mac = handle.capabilities(HostOs::MacOs, true);
    assert!(mac.biometric_available && mac.password_available && mac.presence_caching);
    assert_eq!(mac.authenticator_name.as_deref(), Some("Touch ID"));
    let lid_closed = handle.capabilities(HostOs::MacOs, false);
    assert!(!lid_closed.biometric_available && lid_closed.password_available);
    let windows = handle.capabilities(HostOs::Windows, false);
    assert!(windows.biometric_available && windows.password_available && !windows.presence_caching);
    assert_eq!(windows.authenticator_name.as_deref(), Some("Windows Hello"));
    let linux = handle.capabilities(HostOs::Linux, true);
    assert!(!linux.biometric_available && !linux.password_available && !linux.presence_caching);
    assert_eq!(linux.authenticator_name, None);
}

#[test]
fn handle_keeps_its_backend() {
    let handle = AuthHandle::new(BackendKind::TpmBridge);
    handle.evict_presence_cache();
    assert_eq!(handle.backend_kind(), BackendKind::TpmBridge);
}
