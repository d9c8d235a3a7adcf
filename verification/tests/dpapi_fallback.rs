use enclave::dpapi_fallback::{
    collect_vm_diagnostics, collect_vm_diagnostics_windows, cpuid_hypervisor_vendor, detect_vm,
    hypervisor_present, is_tpm_unavailable_error, registry_checks, registry_string,
    should_use_dpapi_after_tpm_failure, vm_string_signal, CpuidReading, RegistryRead, SystemProbe,
};
use enclave::utf16::wide_null;

#[test]
fn tpm_error_classifier_accepts_missing_tpm_codes() {
    assert!(is_tpm_unavailable_error(
        "key initialization failed: NCryptFinalizeKey: 0x8028000F"
    ));
    assert!(is_tpm_unavailable_error(
        "Microsoft Platform Crypto Provider: TPM device not found"
    ));
}

#[test]
fn tpm_error_classifier_rejects_unrelated_errors() {
    assert!(!is_tpm_unavailable_error(
        "metadata integrity check failed: tag mismatch"
    ));
}

#[test]
fn vm_string_classifier_accepts_common_vm_markers() {
    assert!(vm_string_signal("VMware, Inc. | VMware Virtual Platform"));
    assert!(vm_string_signal("Microsoft Corporation | Virtual Machine"));
    assert!(vm_string_signal("Citrix Hypervisor"));
}

#[test]
fn vm_string_classifier_rejects_plain_hardware() {
    assert!(!vm_string_signal("Dell Inc. | Latitude 7450"));
    assert!(!vm_string_signal("LENOVO | ThinkPad X1 Carbon"));
}

#[test]
fn vm_string_classifier_does_not_treat_vbs_hypervisor_vendor_as_vm() {
    assert!(!vm_string_signal("Microsoft Hv"));
    assert!(!vm_string_signal(
        "Dell Inc. | Latitude 7450 | Microsoft Hv"
    ));
}

#[test]
fn hyper_v_guest_detected_via_microsoft_corporation_manufacturer() {
    assert!(vm_string_signal("Microsoft Corporation | Virtual Machine"));
    assert!(!vm_string_signal("Microsoft Corporation"));
    assert!(vm_string_signal(
        "Microsoft Corporation | Virtual Machine | Microsoft Corporation | Virtual Machine | VRTUAL"
    ));
}

#[test]
fn vbs_on_physical_oem_hardware_not_treated_as_vm() {
    assert!(!vm_string_signal("Dell Inc. | Latitude 7450"));
    assert!(!vm_string_signal("LENOVO | ThinkPad X1 Carbon"));
    assert!(!vm_string_signal("HP | EliteBook 840"));
}

#[test]
fn vm_string_classifier_accepts_new_signals() {
    assert!(vm_string_signal("CyberArk Ltd | CyberArk PSM"));
    assert!(vm_string_signal("SeaBIOS | pc-q35-8.1"));
    assert!(vm_string_signal("Proxmox Virtual Environment"));
    assert!(vm_string_signal("OpenStack Foundation"));
    assert!(vm_string_signal("Oracle VM VirtualBox"));
}

#[test]
fn vm_string_classifier_rejects_raid_virtual_disk() {
    assert!(!vm_string_signal("DELL | VIRTUAL DISK"));
    assert!(!vm_string_signal("HP SmartArray Virtual Disk"));
}

#[test]
fn vm_string_classifier_rejects_seagate() {
    assert!(!vm_string_signal("Seagate Barracuda"));
}

#[test]
fn collect_vm_diagnostics_returns_valid_struct() {
    let diag = collect_vm_diagnostics(&SystemProbe::Other { arch: "x86_64" });
    assert!(!diag.detection_reason.is_empty());
    assert!(!diag.arch.is_empty());
}

#[test]
fn every_tpm_marker_counts() {
    for marker in [
        "hardware security module not available",
        "NCryptCreatePersistedKey",
        "ncryptopenstorageprovider",
        "NCRYPTFINALIZEKEY",
        "Microsoft Platform Crypto Provider",
        "TPM",
        "0x80090030",
        "0x80090029",
        "0X80090016",
        "0x8028000F",
        "0x80280001",
    ] {
        assert!(is_tpm_unavailable_error(&format!("failed: {marker}!")));
    }
    assert!(!is_tpm_unavailable_error(""));
    assert!(!is_tpm_unavailable_error("0x8009003"));
}

#[test]
fn every_vm_marker_counts() {
    for marker in [
        "VMware",
        "VirtualBox",
        "QEMU",
        "KVM",
        "Xen",
        "Parallels",
        "Hyper-V",
        "Virtual Machine",
        "Amazon EC2",
        "Google Compute",
        "Google Cloud",
        "Nutanix",
        "Citrix",
        "bhyve",
        "CyberArk",
        "SeaBIOS",
        "Proxmox",
        "OpenStack",
        "Oracle VM",
    ] {
        assert!(vm_string_signal(marker));
        assert!(vm_string_signal(&format!("<{}>", marker.to_uppercase())));
    }
    assert!(!vm_string_signal(""));
}

fn read(text: &str) -> RegistryRead {
    let mut buffer = wide_null(text);
    let bytes = u32::try_from(buffer.len() * 2).unwrap();
    buffer.resize(512, 0);
    RegistryRead { ok: true, bytes, buffer }
}

fn absent() -> RegistryRead {
    RegistryRead { ok: false, bytes: 1024, buffer: vec![0; 512] }
}

#[test]
fn registry_values_are_decoded_and_trimmed() {
    assert_eq!(registry_string(&read("Dell Inc.")), Some("Dell Inc.".into()));
    assert_eq!(registry_string(&read("\0\0  Dell Inc. \t\0")), Some("Dell Inc.".into()));
    assert_eq!(registry_string(&read("  \u{3000}\u{85} ")), None);
    assert_eq!(registry_string(&read("")), None);
    assert_eq!(registry_string(&read("Zoë 🖥")), Some("Zoë 🖥".into()));
    assert_eq!(registry_string(&absent()), None);
}

#[test]
fn registry_lengths_cut_the_buffer() {
    let buffer: Vec<u16> = "ABCD".encode_utf16().collect();
    let cut = |bytes| registry_string(&RegistryRead { ok: true, bytes, buffer: buffer.clone() });
    assert_eq!(cut(0), None);
    assert_eq!(cut(1), None);
    assert_eq!(cut(2), None);
    assert_eq!(cut(4), Some("A".into()));
    assert_eq!(cut(7), Some("AB".into()));
    assert_eq!(cut(10), Some("ABCD".into()));
    assert_eq!(cut(4000), Some("ABCD".into()));
}

#[test]
fn registry_values_that_are_no_utf16_are_absent() {
    for buffer in [vec![0xD800_u16, 65, 0], vec![65, 0xDC00, 0], vec![0xD83D, 0xD83D, 0]] {
        assert_eq!(registry_string(&RegistryRead { ok: true, bytes: 6, buffer }), None);
    }
    let pair = RegistryRead { ok: true, bytes: 6, buffer: vec![0xD83D, 0xDDA5, 0] };
    assert_eq!(registry_string(&pair), Some("🖥".into()));
}

#[test]
fn trimming_agrees_with_the_standard_library() {
    for n in (0..=0x11000_u32).chain([0x1F5A5, 0xE0020, 0x10FFFF]) {
        if let Some(c) = char::from_u32(n) {
            let text = format!("{c}x{c}");
            let expected = text.trim_matches(char::from(0)).trim().to_string();
            assert_eq!(registry_string(&read(&text)), Some(expected));
        }
    }
}

#[test]
fn utf16_agrees_with_the_standard_library() {
    let mut text = String::new();
    for n in (0..=0x10FFFF_u32).step_by(37) {
        if let Some(c) = char::from_u32(n) {
            text.push(c);
        }
    }
    let mut expected: Vec<u16> = text.encode_utf16().collect();
    expected.push(0);
    assert_eq!(wide_null(&text), expected);
    assert_eq!(wide_null(""), vec![0]);
}

fn vendor(text: &[u8; 12]) -> CpuidReading {
    let word = |i: usize| u32::from_le_bytes([text[i], text[i + 1], text[i + 2], text[i + 3]]);
    CpuidReading { leaf1_ecx: 0x8000_0000, ebx: word(0), ecx: word(4), edx: word(8) }
}

#[test]
fn hypervisor_vendor_is_read_from_the_registers() {
    assert_eq!(cpuid_hypervisor_vendor(&vendor(b"Microsoft Hv")), Some("Microsoft Hv".into()));
    assert_eq!(cpuid_hypervisor_vendor(&vendor(b"KVMKVMKVM\0\0\0")), Some("KVMKVMKVM".into()));
    assert_eq!(cpuid_hypervisor_vendor(&vendor(b"\0\0 ACRN \0\0\0\0")), Some("ACRN".into()));
    assert_eq!(cpuid_hypervisor_vendor(&vendor(&[0; 12])), None);
    assert_eq!(cpuid_hypervisor_vendor(&vendor(&[0xFF; 12])), None);
    let off = CpuidReading { leaf1_ecx: 0x7FFF_FFFF, ..vendor(b"Microsoft Hv") };
    assert_eq!(cpuid_hypervisor_vendor(&off), None);
}

#[test]
fn hypervisor_bit_is_the_highest() {
    assert!(hypervisor_present(0x8000_0000));
    assert!(hypervisor_present(0xFFFF_FFFF));
    assert!(!hypervisor_present(0x7FFF_FFFF));
    assert!(!hypervisor_present(0));
}

fn detected(identity: &str, disk: Option<&str>, vendor: Option<&str>, guest: bool) -> (bool, String) {
    let owned = |text: Option<&str>| text.map(|t| t.to_string());
    detect_vm(identity, &owned(disk), &owned(vendor), guest)
}

#[test]
fn each_sign_is_reported_with_its_reason() {
    assert_eq!(
        detected("VMware, Inc.", Some("QEMU"), Some("KVMKVMKVM"), true),
        (true, "registry VM marker: VMware, Inc.".into())
    );
    assert_eq!(
        detected("Acme", Some("Disk&Ven_QEMU"), Some("KVMKVMKVM"), true),
        (true, "virtual disk device: Disk&Ven_QEMU".into())
    );
    assert_eq!(
        detected("Acme", Some("Samsung"), Some("KVMKVMKVM"), true),
        (true, "CPUID hypervisor vendor: KVMKVMKVM".into())
    );
    assert_eq!(
        detected("Microsoft Corporation | Bastion", None, Some("microsoft HV"), false),
        (
            true,
            "Hyper-V guest: Microsoft Hv CPUID + Microsoft Corporation manufacturer (Microsoft Corporation | Bastion)".into()
        )
    );
    assert_eq!(
        detected("Acme", None, Some("Microsoft Hv"), true),
        (
            true,
            "Hyper-V VDI: Microsoft Hv CPUID + guest integration services present (Acme)".into()
        )
    );
    assert_eq!(
        detected("Dell Inc.", None, Some("Microsoft Hv"), false),
        (
            false,
            "hypervisor bit set without VM indicators: Microsoft Hv (manufacturer: Dell Inc.)"
                .into()
        )
    );
    assert_eq!(
        detected("Surface", None, None, true),
        (
            true,
            "Hyper-V guest integration services present without CPUID hypervisor (Surface)".into()
        )
    );
    assert_eq!(
        detected("", None, None, false),
        (
            false,
            "no VM registry markers, no CPUID hypervisor vendor, no Hyper-V guest integration"
                .into()
        )
    );
    assert_eq!(
        detected("Dell Inc.", Some("Samsung"), Some("Unknown Corp"), false),
        (false, "no VM indicators detected: Dell Inc.".into())
    );
}

fn windows(values: Vec<(usize, &str)>, cpuid: Option<CpuidReading>, guest: bool) -> SystemProbe {
    let mut reads = vec![];
    for _ in 0..12 {
        reads.push(absent());
    }
    for (i, text) in values {
        reads[i] = read(text);
    }
    SystemProbe::Windows { reads, cpuid, hyperv_guest: guest, arch: "x86_64" }
}

#[test]
fn machine_is_named_by_the_first_nine_values() {
    let diag = collect_vm_diagnostics(&windows(
        vec![(0, "Acme"), (2, " "), (8, "Board"), (9, "Samsung"), (10, "QEMU CPU"), (11, "KVM")],
        None,
        false,
    ));
    assert!(!diag.vm_detected);
    assert_eq!(diag.detection_reason, "no VM indicators detected: Acme | Board");
    assert_eq!(diag.registry_values.len(), 12);
    assert_eq!(diag.registry_values[2].1, None);
    assert_eq!(
        diag.registry_values[9],
        ("Disk\\Enum\\0".to_string(), Some("Samsung".to_string()))
    );
    assert_eq!(diag.arch, "x86_64");
    assert_eq!(diag.cpuid_hypervisor_vendor, None);
}

#[test]
fn disk_counts_by_its_label() {
    let diag = collect_vm_diagnostics(&windows(vec![(9, "SCSI\\Disk&Ven_VMware")], None, false));
    assert!(diag.vm_detected);
    assert_eq!(diag.detection_reason, "virtual disk device: SCSI\\Disk&Ven_VMware");
    let values = vec![
        ("Disk\\Enum\\0".to_string(), None),
        ("Disk\\Enum\\0".to_string(), Some("QEMU".to_string())),
    ];
    let joined = collect_vm_diagnostics_windows(values, None, false, "aarch64");
    assert_eq!(joined.detection_reason, "registry VM marker: QEMU");
    assert_eq!(joined.arch, "aarch64");
}

#[test]
fn marker_in_any_naming_value_is_enough() {
    for i in 0..9 {
        let diag = collect_vm_diagnostics(&windows(vec![(i, "Nutanix AHV")], None, false));
        assert!(diag.vm_detected);
    }
}

#[test]
fn fallback_needs_tpm_failure_and_vm() {
    let vm = windows(vec![(1, "Virtual Machine")], Some(vendor(b"Microsoft Hv")), true);
    let laptop = windows(vec![(0, "Dell Inc.")], Some(vendor(b"Microsoft Hv")), false);
    let yes = should_use_dpapi_after_tpm_failure("TPM device not found", &vm);
    assert!(yes.allowed && yes.tpm_failure && yes.vm_detected);
    assert_eq!(
        yes.reason,
        "TPM unavailable and VM detected: registry VM marker: Virtual Machine"
    );
    let physical = should_use_dpapi_after_tpm_failure("TPM device not found", &laptop);
    assert!(!physical.allowed && physical.tpm_failure && !physical.vm_detected);
    assert_eq!(
        physical.reason,
        "TPM unavailable but VM not detected: hypervisor bit set without VM indicators: Microsoft Hv (manufacturer: Dell Inc.)"
    );
    let other = should_use_dpapi_after_tpm_failure("tag mismatch", &vm);
    assert!(!other.allowed && !other.tpm_failure && other.vm_detected);
    assert_eq!(other.reason, "TPM failure did not look like missing/unusable TPM hardware");
}

#[test]
fn machines_without_windows_never_fall_back() {
    let decision =
        should_use_dpapi_after_tpm_failure("tpm", &SystemProbe::Other { arch: "aarch64" });
    assert!(!decision.allowed && decision.tpm_failure && !decision.vm_detected);
    assert_eq!(decision.reason, "TPM unavailable but VM not detected: non-Windows build");
    let diag = collect_vm_diagnostics(&SystemProbe::Other { arch: "aarch64" });
    assert_eq!(diag.registry_values, vec![]);
    assert_eq!(diag.arch, "aarch64");
}

#[test]
fn registry_values_to_read() {
    let checks = registry_checks();
    assert_eq!(checks.len(), 12);
    assert_eq!(checks[0].label, "SystemInformation\\SystemManufacturer");
    assert_eq!(checks[0].subkey, "SYSTEM\\CurrentControlSet\\Control\\SystemInformation");
    assert_eq!(checks[0].value_name, "SystemManufacturer");
    assert_eq!(checks[9].label, "Disk\\Enum\\0");
    assert_eq!(checks[9].value_name, "0");
    assert_eq!(checks[11].label, "CentralProcessor\\VendorIdentifier");
    assert_eq!(checks[11].subkey, "HARDWARE\\DESCRIPTION\\System\\CentralProcessor\\0");
}
