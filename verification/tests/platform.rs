use enclave::error::StorageError;
use enclave::outside::ZeroizingBytes;
use enclave::platform::{
    delete_meta_hmac_key, find_bridge_executable, meta_hmac_key, meta_store, verify_meta_integrity,
    BackendKind, BridgeStep, HostOs, MetaObservations, MetaStep, MetaStore,
};

#[test]
fn backend_kind_display() {
    assert_eq!(BackendKind::SecureEnclave.to_string(), "Secure Enclave");
    assert_eq!(BackendKind::Tpm.to_string(), "TPM 2.0");
    assert_eq!(BackendKind::TpmBridge.to_string(), "TPM 2.0 (WSL Bridge)");
    assert_eq!(BackendKind::Keyring.to_string(), "Keyring");
}

#[test]
fn backend_kind_eq() {
    assert_eq!(BackendKind::SecureEnclave, BackendKind::SecureEnclave);
    assert_ne!(BackendKind::SecureEnclave, BackendKind::Tpm);
}

#[test]
fn backend_kind_clone() {
    let kind = BackendKind::Tpm;
    let cloned = kind;
    assert_eq!(kind, cloned);
}

#[test]
fn find_bridge_executable_returns_none_on_dev_machine() {
    let step = find_bridge_executable("test-app", &vec![], Some(false), &vec![false, false]);
    assert_eq!(step, BridgeStep::NotFound);
}

#[test]
fn bridge_is_searched_in_order() {
    let extra = vec![
        "relative/bridge.exe".to_string(),
        "/opt/bridge.exe".to_string(),
        String::new(),
        "/last".to_string(),
    ];
    let step = |discovered, probed: &[bool]| {
        find_bridge_executable("sshenc", &extra, discovered, &probed.to_vec())
    };
    assert_eq!(step(None, &[]), BridgeStep::Discover);
    assert_eq!(step(Some(true), &[]), BridgeStep::UseDiscovered);
    let first = "/mnt/c/Program Files/sshenc/sshenc-tpm-bridge.exe".to_string();
    let second = "/mnt/c/ProgramData/sshenc/sshenc-tpm-bridge.exe".to_string();
    assert_eq!(step(Some(false), &[]), BridgeStep::Probe(first.clone()));
    assert_eq!(step(Some(false), &[true]), BridgeStep::Found(first));
    assert_eq!(step(Some(false), &[false]), BridgeStep::Probe(second.clone()));
    assert_eq!(step(Some(false), &[false, true]), BridgeStep::Found(second));
    assert_eq!(
        step(Some(false), &[false, false]),
        BridgeStep::Probe("/opt/bridge.exe".into())
    );
    assert_eq!(
        step(Some(false), &[false, false, false]),
        BridgeStep::Probe("/last".into())
    );
    assert_eq!(
        step(Some(false), &[false, false, false, true]),
        BridgeStep::Found("/last".into())
    );
    assert_eq!(step(Some(false), &[false; 4]), BridgeStep::NotFound);
}

#[test]
fn each_platform_has_its_store() {
    assert_eq!(meta_store(HostOs::MacOs), Some(MetaStore::Keychain));
    assert_eq!(meta_store(HostOs::Windows), Some(MetaStore::Dpapi));
    assert_eq!(meta_store(HostOs::Linux), Some(MetaStore::SecretService));
    assert_eq!(meta_store(HostOs::Other), None);
}

#[test]
fn linux_entry_survives_uninstall() {
    assert_eq!(delete_meta_hmac_key(HostOs::MacOs), Some(MetaStore::Keychain));
    assert_eq!(delete_meta_hmac_key(HostOs::Windows), Some(MetaStore::Dpapi));
    assert_eq!(delete_meta_hmac_key(HostOs::Linux), None);
    assert_eq!(delete_meta_hmac_key(HostOs::Other), None);
}

#[test]
fn key_and_failures_come_from_the_store() {
    let reply = || Ok(Some(ZeroizingBytes::new(vec![1, 2, 3])));
    for host in [HostOs::MacOs, HostOs::Windows, HostOs::Linux] {
        let key = meta_hmac_key(host, reply()).unwrap().unwrap();
        assert_eq!(key.as_slice(), [1_u8, 2, 3].as_ref());
        assert!(matches!(meta_hmac_key(host, Ok(None)), Ok(None)));
        let failed = meta_hmac_key(host, Err("no random bytes".into()));
        assert_eq!(failed.err(), Some("no random bytes".to_string()));
    }
    assert!(matches!(meta_hmac_key(HostOs::Other, reply()), Ok(None)));
    assert!(matches!(meta_hmac_key(HostOs::Other, Err("failed".into())), Ok(None)));
}

fn seen(
    meta_exists: Option<bool>,
    key_available: Option<bool>,
    load: Option<Result<(), String>>,
    migration: Option<Result<(), String>>,
) -> MetaObservations {
    MetaObservations { meta_exists, key_available, load, migration }
}

fn step(observed: MetaObservations) -> MetaStep {
    verify_meta_integrity("default", &observed, "meta_hmac_verify", "meta_hmac_missing")
}

#[test]
fn metadata_is_probed_before_the_store_is_asked() {
    assert_eq!(
        step(seen(None, Some(true), None, None)),
        MetaStep::ProbeMeta("default.meta".into())
    );
    assert_eq!(step(seen(Some(false), None, None, None)), MetaStep::Done(Ok(())));
    assert_eq!(step(seen(Some(true), None, None, None)), MetaStep::FetchKey);
    assert_eq!(step(seen(Some(true), Some(false), None, None)), MetaStep::Done(Ok(())));
    assert_eq!(step(seen(Some(true), Some(true), None, None)), MetaStep::LoadMeta);
}

#[test]
fn verified_metadata_is_accepted() {
    assert_eq!(
        step(seen(Some(true), Some(true), Some(Ok(())), None)),
        MetaStep::Done(Ok(()))
    );
}

#[test]
fn tampered_metadata_is_refused_with_its_text() {
    let text = "operation meta_hmac_verify failed: tag mismatch; meta_hmac_missing";
    assert_eq!(
        step(seen(Some(true), Some(true), Some(Err(text.into())), None)),
        MetaStep::Done(Err(StorageError::KeyInitFailed(text.into())))
    );
}

#[test]
fn missing_sidecar_is_written() {
    let missing = || Some(Err("operation meta_hmac_missing failed".to_string()));
    assert_eq!(step(seen(Some(true), Some(true), missing(), None)), MetaStep::MigrateMeta);
    assert_eq!(
        step(seen(Some(true), Some(true), missing(), Some(Ok(())))),
        MetaStep::Done(Ok(()))
    );
    assert_eq!(
        step(seen(Some(true), Some(true), missing(), Some(Err("disk full".into())))),
        MetaStep::Done(Ok(()))
    );
}

#[test]
fn other_load_errors_are_left_to_the_caller() {
    assert_eq!(
        step(seen(Some(true), Some(true), Some(Err("no such file".into())), None)),
        MetaStep::Done(Ok(()))
    );
}
