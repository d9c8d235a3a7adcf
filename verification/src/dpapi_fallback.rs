//! Guardrails for the Windows DPAPI fallback.
//!
//! The fallback is decided here and not by the application: a caller can ask for
//! it, and gets it only where the TPM failed and the machine is a virtual one.

use crate::bytes::{le_bytes32, le_bytes32_are_digits, push_le_bytes32};
use crate::text::{
    ascii_lower, chars_of, concat, concat3, contains, contains_exec, contains_iff_it_splits,
    contains_survives_embedding, copy_of, equal_ignoring_ascii_case, equal_ignoring_ascii_case_exec,
    is_nul, is_white_space, join, join_exec, join_holds_each_part, lower_chars_of,
    mention_survives_embedding, mentions_any, mentions_any_exec, non_empty, occurs_at, opt_view,
    same_text, string_views, trim_system_text, trimmed_system_text, views,
};
use crate::utf16::{
    decoded_text_has_these_units, utf16_decode, utf16_encode, utf16_round_trip,
};
use vstd::prelude::*;
use vstd::slice::slice_subrange;
use vstd::utf8::{decode_first_scalar, decode_utf8, pop_first_scalar, valid_utf8};

verus! {

/// Decision details for audit logging.
#[derive(Debug, Clone, PartialEq, Eq)]
pub struct FallbackDecision {
    pub allowed: bool,
    pub tpm_failure: bool,
    pub vm_detected: bool,
    pub reason: String,
}

/// What was found out about the machine, for diagnostic and audit logging.
#[derive(Debug, Clone, PartialEq, Eq)]
pub struct VmDiagnostics {
    pub vm_detected: bool,
    pub detection_reason: String,
    /// Registry values read during detection: label, and value where there is
    /// one.
    pub registry_values: Vec<(String, Option<String>)>,
    /// Vendor text of the hypervisor, where the processor reports one.
    pub cpuid_hypervisor_vendor: Option<String>,
    /// Whether the registry key of the Hyper-V guest integration services
    /// exists.
    pub hyperv_guest_integration: bool,
    /// Architecture of the running process.
    pub arch: &'static str,
}

/// Texts that mark an error of a missing or unusable TPM.
pub open spec fn tpm_markers() -> Seq<Seq<char>> {
    seq![
        "hardware security module not available"@,
        "ncryptcreatepersistedkey"@,
        "ncryptopenstorageprovider"@,
        "ncryptfinalizekey"@,
        "microsoft platform crypto provider"@,
        "tpm"@,
        "0x80090030"@,
        "0x80090029"@,
        "0x80090016"@,
        "0x8028000f"@,
        "0x80280001"@,
    ]
}

/// Texts that mark a virtual machine.
pub open spec fn vm_markers() -> Seq<Seq<char>> {
    seq![
        "vmware"@,
        "virtualbox"@,
        "qemu"@,
        "kvm"@,
        "xen"@,
        "parallels"@,
        "hyper-v"@,
        "virtual machine"@,
        "amazon ec2"@,
        "google compute"@,
        "google cloud"@,
        "microsoft corporation | virtual machine"@,
        "nutanix"@,
        "citrix"@,
        "bhyve"@,
        "cyberark"@,
        "seabios"@,
        "proxmox"@,
        "openstack"@,
        "oracle vm"@,
    ]
}

/// Whether an error text is that of a missing or unusable TPM.
pub fn is_tpm_unavailable_error(error: &str) -> (unavailable: bool)
    ensures
        unavailable == mentions_any(error@, tpm_markers()),
{
    let markers: Vec<&str> = vec![
        "hardware security module not available",
        "ncryptcreatepersistedkey",
        "ncryptopenstorageprovider",
        "ncryptfinalizekey",
        "microsoft platform crypto provider",
        "tpm",
        "0x80090030",
        "0x80090029",
        "0x80090016",
        "0x8028000f",
        "0x80280001",
    ];
    assert(views(markers@) =~= tpm_markers());
    mentions_any_exec(error, &markers)
}

/// Whether a text marks a virtual machine.
pub fn vm_string_signal(value: &str) -> (signal: bool)
    ensures
        signal == mentions_any(value@, vm_markers()),
{
    let markers: Vec<&str> = vec![
        "vmware",
        "virtualbox",
        "qemu",
        "kvm",
        "xen",
        "parallels",
        "hyper-v",
        "virtual machine",
        "amazon ec2",
        "google compute",
        "google cloud",
        "microsoft corporation | virtual machine",
        "nutanix",
        "citrix",
        "bhyve",
        "cyberark",
        "seabios",
        "proxmox",
        "openstack",
        "oracle vm",
    ];
    assert(views(markers@) =~= vm_markers());
    mentions_any_exec(value, &markers)
}

/// A registry value under `HKEY_LOCAL_MACHINE` that the detection reads.
#[derive(Debug, Clone, Copy, PartialEq, Eq)]
pub struct RegistryCheck {
    /// The label under which the value is reported.
    pub label: &'static str,
    pub subkey: &'static str,
    pub value_name: &'static str,
}

/// The label of the first disk.
pub const DISK_LABEL: &'static str = "Disk\\Enum\\0";

/// How many values at the front of the list name the machine: manufacturer,
/// product, BIOS and baseboard.
pub const IDENTITY_VALUES: usize = 9;

/// How many registry values are read.
pub const REGISTRY_VALUES: usize = 12;

/// The registry key that exists on Hyper-V guests, and not on physical machines
/// with virtualization-based security.
pub const HYPERV_GUEST_SUBKEY: &'static str =
    "SOFTWARE\\Microsoft\\Virtual Machine\\Guest\\Parameters";

/// The registry values that are read: label, key and name of each.
pub open spec fn registry_table() -> Seq<(Seq<char>, Seq<char>, Seq<char>)> {
    seq![
        ("SystemInformation\\SystemManufacturer"@, "SYSTEM\\CurrentControlSet\\Control\\SystemInformation"@, "SystemManufacturer"@),
        ("SystemInformation\\SystemProductName"@, "SYSTEM\\CurrentControlSet\\Control\\SystemInformation"@, "SystemProductName"@),
        ("BIOS\\SystemManufacturer"@, "HARDWARE\\DESCRIPTION\\System\\BIOS"@, "SystemManufacturer"@),
        ("BIOS\\SystemProductName"@, "HARDWARE\\DESCRIPTION\\System\\BIOS"@, "SystemProductName"@),
        ("BIOS\\BIOSVendor"@, "HARDWARE\\DESCRIPTION\\System\\BIOS"@, "BIOSVendor"@),
        ("BIOS\\BIOSVersion"@, "HARDWARE\\DESCRIPTION\\System\\BIOS"@, "BIOSVersion"@),
        ("BIOS\\SystemVersion"@, "HARDWARE\\DESCRIPTION\\System\\BIOS"@, "SystemVersion"@),
        ("BIOS\\BaseBoardManufacturer"@, "HARDWARE\\DESCRIPTION\\System\\BIOS"@, "BaseBoardManufacturer"@),
        ("BIOS\\BaseBoardProduct"@, "HARDWARE\\DESCRIPTION\\System\\BIOS"@, "BaseBoardProduct"@),
        ("Disk\\Enum\\0"@, "SYSTEM\\CurrentControlSet\\Services\\Disk\\Enum"@, "0"@),
        ("CentralProcessor\\ProcessorNameString"@, "HARDWARE\\DESCRIPTION\\System\\CentralProcessor\\0"@, "ProcessorNameString"@),
        ("CentralProcessor\\VendorIdentifier"@, "HARDWARE\\DESCRIPTION\\System\\CentralProcessor\\0"@, "VendorIdentifier"@),
    ]
}

/// The registry values to read, in this order.
pub fn registry_checks() -> (checks: Vec<RegistryCheck>)
    ensures
        checks@.len() == REGISTRY_VALUES,
        forall|i: int|
            0 <= i < REGISTRY_VALUES ==> {
                &&& (#[trigger] checks@[i]).label@ == registry_table()[i].0
                &&& checks@[i].subkey@ == registry_table()[i].1
                &&& checks@[i].value_name@ == registry_table()[i].2
            },
{
    let checks: Vec<RegistryCheck> = vec![
        RegistryCheck {
            label: "SystemInformation\\SystemManufacturer",
            subkey: "SYSTEM\\CurrentControlSet\\Control\\SystemInformation",
            value_name: "SystemManufacturer",
        },
        RegistryCheck {
            label: "SystemInformation\\SystemProductName",
            subkey: "SYSTEM\\CurrentControlSet\\Control\\SystemInformation",
            value_name: "SystemProductName",
        },
        RegistryCheck {
            label: "BIOS\\SystemManufacturer",
            subkey: "HARDWARE\\DESCRIPTION\\System\\BIOS",
            value_name: "SystemManufacturer",
        },
        RegistryCheck {
            label: "BIOS\\SystemProductName",
            subkey: "HARDWARE\\DESCRIPTION\\System\\BIOS",
            value_name: "SystemProductName",
        },
        RegistryCheck {
            label: "BIOS\\BIOSVendor",
            subkey: "HARDWARE\\DESCRIPTION\\System\\BIOS",
            value_name: "BIOSVendor",
        },
        RegistryCheck {
            label: "BIOS\\BIOSVersion",
            subkey: "HARDWARE\\DESCRIPTION\\System\\BIOS",
            value_name: "BIOSVersion",
        },
        RegistryCheck {
            label: "BIOS\\SystemVersion",
            subkey: "HARDWARE\\DESCRIPTION\\System\\BIOS",
            value_name: "SystemVersion",
        },
        RegistryCheck {
            label: "BIOS\\BaseBoardManufacturer",
            subkey: "HARDWARE\\DESCRIPTION\\System\\BIOS",
            value_name: "BaseBoardManufacturer",
        },
        RegistryCheck {
            label: "BIOS\\BaseBoardProduct",
            subkey: "HARDWARE\\DESCRIPTION\\System\\BIOS",
            value_name: "BaseBoardProduct",
        },
        RegistryCheck {
            label: "Disk\\Enum\\0",
            subkey: "SYSTEM\\CurrentControlSet\\Services\\Disk\\Enum",
            value_name: "0",
        },
        RegistryCheck {
            label: "CentralProcessor\\ProcessorNameString",
            subkey: "HARDWARE\\DESCRIPTION\\System\\CentralProcessor\\0",
            value_name: "ProcessorNameString",
        },
        RegistryCheck {
            label: "CentralProcessor\\VendorIdentifier",
            subkey: "HARDWARE\\DESCRIPTION\\System\\CentralProcessor\\0",
            value_name: "VendorIdentifier",
        },
    ];
    assert(checks@.len() == 12);
    checks
}

/// What the registry returned for one value: whether the read succeeded, the
/// length in bytes, and the buffer.
#[derive(Debug)]
pub struct RegistryRead {
    pub ok: bool,
    pub bytes: u32,
    pub buffer: Vec<u16>,
}

/// The text of a registry value: the code units that were written, without the
/// zero at the end, decoded and trimmed. Nothing where the read failed, the text
/// is no UTF-16 or nothing is left.
pub open spec fn registry_text(read: RegistryRead) -> Option<Seq<char>> {
    if !read.ok || read.bytes < 2 {
        None
    } else {
        let len = read.bytes / 2 - 1;
        let units = if len < read.buffer@.len() {
            read.buffer@.take(len)
        } else {
            read.buffer@
        };
        match utf16_decode(units) {
            Some(text) => non_empty(trim_system_text(text)),
            None => None,
        }
    }
}

/// The text of a registry value.
pub fn registry_string(read: &RegistryRead) -> (text: Option<String>)
    ensures
        opt_view(text) == registry_text(*read),
{
    if !read.ok || read.bytes < 2 {
        return None;
    }
    let len: usize = (read.bytes / 2 - 1) as usize;
    let kept: usize = if len < read.buffer.len() {
        len
    } else {
        read.buffer.len()
    };
    let units: &[u16] = slice_subrange(read.buffer.as_slice(), 0, kept);
    assert(units@ =~= read.buffer@.take(kept as int));
    assert(read.buffer@.take(read.buffer@.len() as int) =~= read.buffer@);
    match String::from_utf16(units) {
        Ok(text) => trimmed_system_text(text.as_str()),
        Err(_) => None,
    }
}

/// What the processor reported: register `ecx` of leaf 1, and the registers of
/// the hypervisor's vendor leaf.
#[derive(Debug, Clone, Copy, PartialEq, Eq)]
pub struct CpuidReading {
    pub leaf1_ecx: u32,
    pub ebx: u32,
    pub ecx: u32,
    pub edx: u32,
}

/// The bit of leaf 1 that says that a hypervisor is present.
pub open spec fn hypervisor_bit(leaf1_ecx: u32) -> bool {
    leaf1_ecx >= 0x8000_0000
}

/// The bytes of the hypervisor's vendor text.
pub open spec fn vendor_bytes(cpuid: CpuidReading) -> Seq<u8> {
    le_bytes32(cpuid.ebx) + le_bytes32(cpuid.ecx) + le_bytes32(cpuid.edx)
}

/// The hypervisor's vendor text: nothing without a hypervisor, where the bytes
/// are no UTF-8, or where nothing is left after trimming.
pub open spec fn vendor_text(cpuid: CpuidReading) -> Option<Seq<char>> {
    if !hypervisor_bit(cpuid.leaf1_ecx) || !valid_utf8(vendor_bytes(cpuid)) {
        None
    } else {
        non_empty(trim_system_text(decode_utf8(vendor_bytes(cpuid))))
    }
}

/// Whether leaf 1 says that a hypervisor is present.
pub fn hypervisor_present(leaf1_ecx: u32) -> (present: bool)
    ensures
        present == hypervisor_bit(leaf1_ecx),
{
    assert((leaf1_ecx & 0x8000_0000u32 != 0) == (leaf1_ecx >= 0x8000_0000u32)) by (bit_vector);
    (leaf1_ecx & 0x8000_0000u32) != 0
}

/// The vendor text of the hypervisor.
pub fn cpuid_hypervisor_vendor(cpuid: &CpuidReading) -> (vendor: Option<String>)
    ensures
        opt_view(vendor) == vendor_text(*cpuid),
{
    if !hypervisor_present(cpuid.leaf1_ecx) {
        return None;
    }
    let mut bytes: Vec<u8> = Vec::new();
    push_le_bytes32(&mut bytes, cpuid.ebx);
    push_le_bytes32(&mut bytes, cpuid.ecx);
    push_le_bytes32(&mut bytes, cpuid.edx);
    assert(bytes@ =~= vendor_bytes(*cpuid));
    match String::from_utf8(bytes) {
        Ok(text) => trimmed_system_text(text.as_str()),
        Err(_) => None,
    }
}

/// The contents of a list of labelled values.
pub open spec fn values_view(values: Seq<(String, Option<String>)>) -> Seq<
    (Seq<char>, Option<Seq<char>>),
> {
    Seq::new(values.len(), |i: int| (values[i].0@, opt_view(values[i].1)))
}

/// The values that are there, in order.
pub open spec fn present(values: Seq<(Seq<char>, Option<Seq<char>>)>) -> Seq<Seq<char>>
    decreases values.len(),
{
    if values.len() == 0 {
        Seq::empty()
    } else {
        match values.last().1 {
            Some(value) => present(values.drop_last()).push(value),
            None => present(values.drop_last()),
        }
    }
}

/// The values at the front of the list that name the machine.
pub open spec fn identity_values(values: Seq<(Seq<char>, Option<Seq<char>>)>) -> Seq<
    (Seq<char>, Option<Seq<char>>),
> {
    if values.len() < IDENTITY_VALUES {
        values
    } else {
        values.take(IDENTITY_VALUES as int)
    }
}

/// The text that names the machine.
pub open spec fn identity(values: Seq<(Seq<char>, Option<Seq<char>>)>) -> Seq<char> {
    join(present(identity_values(values)), " | "@)
}

/// The value under the first occurrence of a label.
pub open spec fn value_of(
    values: Seq<(Seq<char>, Option<Seq<char>>)>,
    label: Seq<char>,
) -> Option<Seq<char>>
    decreases values.len(),
{
    if values.len() == 0 {
        None
    } else if values[0].0 == label {
        values[0].1
    } else {
        value_of(values.drop_first(), label)
    }
}

/// The text marks a virtual machine.
pub open spec fn vm_signal(text: Seq<char>) -> bool {
    mentions_any(text, vm_markers())
}

/// The vendor that both Hyper-V guests and physical machines with
/// virtualization-based security report.
pub open spec fn is_microsoft_hv(vendor: Seq<char>) -> bool {
    equal_ignoring_ascii_case(vendor, "Microsoft Hv"@)
}

/// The machine names Microsoft as a manufacturer.
pub open spec fn made_by_microsoft(identity: Seq<char>) -> bool {
    contains(ascii_lower(identity), "microsoft corporation"@)
}

/// Whether a machine is a virtual one, and why that was concluded. The signs are
/// asked in this order: the texts that name the machine, the name of the first
/// disk, the hypervisor's vendor, and the guest integration services.
pub open spec fn detection(
    identity: Seq<char>,
    disk: Option<Seq<char>>,
    vendor: Option<Seq<char>>,
    guest: bool,
) -> (bool, Seq<char>) {
    if vm_signal(identity) {
        (true, "registry VM marker: "@ + identity)
    } else if disk is Some && vm_signal(disk->0) {
        (true, "virtual disk device: "@ + disk->0)
    } else if vendor is Some && vm_signal(vendor->0) && !is_microsoft_hv(vendor->0) {
        (true, "CPUID hypervisor vendor: "@ + vendor->0)
    } else if vendor is Some && is_microsoft_hv(vendor->0) {
        if made_by_microsoft(identity) {
            (
                true,
                "Hyper-V guest: Microsoft Hv CPUID + Microsoft Corporation manufacturer ("@ + identity
                    + ")"@,
            )
        } else if guest {
            (
                true,
                "Hyper-V VDI: Microsoft Hv CPUID + guest integration services present ("@ + identity
                    + ")"@,
            )
        } else {
            (
                false,
                "hypervisor bit set without VM indicators: "@ + vendor->0 + " (manufacturer: "@
                    + identity + ")"@,
            )
        }
    } else if guest {
        (
            true,
            "Hyper-V guest integration services present without CPUID hypervisor ("@ + identity
                + ")"@,
        )
    } else if identity.len() == 0 {
        (
            false,
            "no VM registry markers, no CPUID hypervisor vendor, no Hyper-V guest integration"@,
        )
    } else {
        (false, "no VM indicators detected: "@ + identity)
    }
}

/// The texts that name the machine, one after the other.
fn identity_joined(values: &Vec<(String, Option<String>)>) -> (text: String)
    ensures
        text@ == identity(values_view(values@)),
{
    let ghost all = values_view(values@);
    let limit: usize = if values.len() < IDENTITY_VALUES {
        values.len()
    } else {
        IDENTITY_VALUES
    };
    let mut parts: Vec<String> = Vec::new();
    let mut i: usize = 0;
    while i < limit
        invariant
            i <= limit <= values@.len(),
            all == values_view(values@),
            string_views(parts@) =~= present(all.take(i as int)),
        decreases limit - i,
    {
        let ghost before = parts@;
        assert(all.take(i + 1).drop_last() =~= all.take(i as int));
        assert(all.take(i + 1).last() == all[i as int]);
        if let Some(value) = &values[i].1 {
            parts.push(value.as_str().to_owned());
            assert(string_views(parts@) =~= string_views(before).push(values@[i as int].1->0@));
        }
        i += 1;
    }
    assert(all.take(limit as int) =~= identity_values(all));
    join_exec(&parts, " | ")
}

/// The value under the label of the first disk.
fn disk_device(values: &Vec<(String, Option<String>)>) -> (disk: Option<String>)
    ensures
        opt_view(disk) == value_of(values_view(values@), DISK_LABEL@),
{
    let ghost all = values_view(values@);
    let mut i: usize = 0;
    assert(all.skip(0) =~= all);
    while i < values.len()
        invariant
            i <= values@.len(),
            all == values_view(values@),
            value_of(all.skip(i as int), DISK_LABEL@) == value_of(all, DISK_LABEL@),
        decreases values@.len() - i,
    {
        assert(all.skip(i as int)[0] == all[i as int]);
        if same_text(values[i].0.as_str(), DISK_LABEL) {
            return copy_of(&values[i].1);
        }
        assert(all.skip(i as int).drop_first() =~= all.skip(i + 1));
        i += 1;
    }
    None
}

/// Whether a machine is a virtual one, and why that was concluded.
pub fn detect_vm(
    identity: &str,
    disk: &Option<String>,
    vendor: &Option<String>,
    hyperv_guest: bool,
) -> (found: (bool, String))
    ensures
        (found.0, found.1@) == detection(identity@, opt_view(*disk), opt_view(*vendor), hyperv_guest),
{
    if vm_string_signal(identity) {
        return (true, concat("registry VM marker: ", identity));
    }
    if let Some(disk) = disk {
        if vm_string_signal(disk.as_str()) {
            return (true, concat("virtual disk device: ", disk.as_str()));
        }
    }
    if let Some(vendor) = vendor {
        let microsoft_hv: bool = equal_ignoring_ascii_case_exec(vendor.as_str(), "Microsoft Hv");
        if vm_string_signal(vendor.as_str()) && !microsoft_hv {
            return (true, concat("CPUID hypervisor vendor: ", vendor.as_str()));
        }
        if microsoft_hv {
            if contains_exec(&lower_chars_of(identity), &chars_of("microsoft corporation")) {
                return (
                    true,
                    concat3(
                        "Hyper-V guest: Microsoft Hv CPUID + Microsoft Corporation manufacturer (",
                        identity,
                        ")",
                    ),
                );
            }
            if hyperv_guest {
                return (
                    true,
                    concat3(
                        "Hyper-V VDI: Microsoft Hv CPUID + guest integration services present (",
                        identity,
                        ")",
                    ),
                );
            }
            let front: String = concat3(
                "hypervisor bit set without VM indicators: ",
                vendor.as_str(),
                " (manufacturer: ",
            );
            return (false, concat3(front.as_str(), identity, ")"));
        }
    }
    if hyperv_guest {
        return (
            true,
            concat3(
                "Hyper-V guest integration services present without CPUID hypervisor (",
                identity,
                ")",
            ),
        );
    }
    if chars_of(identity).len() == 0 {
        (
            false,
            "no VM registry markers, no CPUID hypervisor vendor, no Hyper-V guest integration".to_owned(),
        )
    } else {
        (false, concat("no VM indicators detected: ", identity))
    }
}

/// Draws the conclusion from what was read on a Windows machine.
pub fn collect_vm_diagnostics_windows(
    registry_values: Vec<(String, Option<String>)>,
    cpuid_vendor: Option<String>,
    hyperv_guest: bool,
    arch: &'static str,
) -> (diagnostics: VmDiagnostics)
    ensures
        diagnostics.registry_values == registry_values,
        diagnostics.cpuid_hypervisor_vendor == cpuid_vendor,
        diagnostics.hyperv_guest_integration == hyperv_guest,
        diagnostics.arch == arch,
        ({
            let values = values_view(registry_values@);
            (diagnostics.vm_detected, diagnostics.detection_reason@) == detection(
                identity(values),
                value_of(values, DISK_LABEL@),
                opt_view(cpuid_vendor),
                hyperv_guest,
            )
        }),
{
    let identity_text: String = identity_joined(&registry_values);
    let disk: Option<String> = disk_device(&registry_values);
    let found: (bool, String) = detect_vm(
        identity_text.as_str(),
        &disk,
        &cpuid_vendor,
        hyperv_guest,
    );
    VmDiagnostics {
        vm_detected: found.0,
        detection_reason: found.1,
        registry_values,
        cpuid_hypervisor_vendor: cpuid_vendor,
        hyperv_guest_integration: hyperv_guest,
        arch,
    }
}

/// What the program around the library read from the system.
#[derive(Debug)]
pub enum SystemProbe {
    /// A Windows machine: one read for each registry value, what the processor
    /// reported where it can be asked, and whether the key of the Hyper-V guest
    /// integration services exists.
    Windows {
        reads: Vec<RegistryRead>,
        cpuid: Option<CpuidReading>,
        hyperv_guest: bool,
        arch: &'static str,
    },
    /// Any other machine.
    Other { arch: &'static str },
}

impl SystemProbe {
    /// There is one read for each registry value.
    pub open spec fn wf(&self) -> bool {
        self matches SystemProbe::Windows { reads, .. } ==> reads@.len() == REGISTRY_VALUES
    }
}

/// The labelled texts of the registry values.
pub open spec fn read_values(reads: Seq<RegistryRead>) -> Seq<(Seq<char>, Option<Seq<char>>)> {
    Seq::new(REGISTRY_VALUES as nat, |i: int| (registry_table()[i].0, registry_text(reads[i])))
}

/// The hypervisor's vendor text, where the processor was asked.
pub open spec fn read_vendor(cpuid: Option<CpuidReading>) -> Option<Seq<char>> {
    match cpuid {
        Some(reading) => vendor_text(reading),
        None => None,
    }
}

/// Whether a probed machine is a virtual one, and why that was concluded.
pub open spec fn probe_detection(probe: SystemProbe) -> (bool, Seq<char>) {
    match probe {
        SystemProbe::Windows { reads, cpuid, hyperv_guest, arch } => detection(
            identity(read_values(reads@)),
            value_of(read_values(reads@), DISK_LABEL@),
            read_vendor(cpuid),
            hyperv_guest,
        ),
        SystemProbe::Other { arch } => (false, "non-Windows build"@),
    }
}

/// Labels the texts of the registry values.
fn registry_values(reads: &Vec<RegistryRead>) -> (values: Vec<(String, Option<String>)>)
    requires
        reads@.len() == REGISTRY_VALUES,
    ensures
        values_view(values@) == read_values(reads@),
{
    let checks: Vec<RegistryCheck> = registry_checks();
    let mut values: Vec<(String, Option<String>)> = Vec::new();
    let mut i: usize = 0;
    while i < REGISTRY_VALUES
        invariant
            i <= REGISTRY_VALUES,
            reads@.len() == REGISTRY_VALUES,
            checks@.len() == REGISTRY_VALUES,
            forall|j: int|
                0 <= j < REGISTRY_VALUES ==> (#[trigger] checks@[j]).label@ == registry_table()[j].0,
            values@.len() == i,
            forall|j: int|
                0 <= j < i ==> (#[trigger] values@[j]).0@ == registry_table()[j].0 && opt_view(
                    values@[j].1,
                ) == registry_text(reads@[j]),
        decreases REGISTRY_VALUES - i,
    {
        values.push((checks[i].label.to_owned(), registry_string(&reads[i])));
        i += 1;
    }
    assert(values_view(values@) =~= read_values(reads@));
    values
}

/// Collects what is known about the machine without deciding on a fallback.
pub fn collect_vm_diagnostics(probe: &SystemProbe) -> (diagnostics: VmDiagnostics)
    requires
        probe.wf(),
    ensures
        (diagnostics.vm_detected, diagnostics.detection_reason@) == probe_detection(*probe),
        *probe matches SystemProbe::Windows { reads, cpuid, hyperv_guest, arch } ==> {
            &&& values_view(diagnostics.registry_values@) == read_values(reads@)
            &&& opt_view(diagnostics.cpuid_hypervisor_vendor) == read_vendor(cpuid)
            &&& diagnostics.hyperv_guest_integration == hyperv_guest
            &&& diagnostics.arch == arch
        },
        *probe matches SystemProbe::Other { arch } ==> {
            &&& diagnostics.registry_values@.len() == 0
            &&& diagnostics.cpuid_hypervisor_vendor is None
            &&& !diagnostics.hyperv_guest_integration
            &&& diagnostics.arch == arch
        },
{
    match probe {
        SystemProbe::Windows { reads, cpuid, hyperv_guest, arch } => {
            let vendor: Option<String> = match cpuid {
                Some(reading) => cpuid_hypervisor_vendor(reading),
                None => None,
            };
            collect_vm_diagnostics_windows(registry_values(reads), vendor, *hyperv_guest, *arch)
        },
        SystemProbe::Other { arch } => VmDiagnostics {
            vm_detected: false,
            detection_reason: "non-Windows build".to_owned(),
            registry_values: Vec::new(),
            cpuid_hypervisor_vendor: None,
            hyperv_guest_integration: false,
            arch: *arch,
        },
    }
}

/// What is logged about a decision.
pub open spec fn decision_reason(tpm_failure: bool, found: (bool, Seq<char>)) -> Seq<char> {
    if !tpm_failure {
        "TPM failure did not look like missing/unusable TPM hardware"@
    } else if found.0 {
        "TPM unavailable and VM detected: "@ + found.1
    } else {
        "TPM unavailable but VM not detected: "@ + found.1
    }
}

/// Returns whether a failed TPM initialization may fall back to DPAPI: the error
/// has to be that of a missing or unusable TPM, and the machine a virtual one.
pub fn should_use_dpapi_after_tpm_failure(error: &str, probe: &SystemProbe) -> (decision:
    FallbackDecision)
    requires
        probe.wf(),
    ensures
        decision.tpm_failure == mentions_any(error@, tpm_markers()),
        decision.vm_detected == probe_detection(*probe).0,
        decision.allowed == (decision.tpm_failure && decision.vm_detected),
        decision.reason@ == decision_reason(decision.tpm_failure, probe_detection(*probe)),
{
    let tpm_failure: bool = is_tpm_unavailable_error(error);
    let diagnostics: VmDiagnostics = collect_vm_diagnostics(probe);
    let vm_detected: bool = diagnostics.vm_detected;
    let found: &str = diagnostics.detection_reason.as_str();
    let reason: String = if !tpm_failure {
        "TPM failure did not look like missing/unusable TPM hardware".to_owned()
    } else if vm_detected {
        concat("TPM unavailable and VM detected: ", found)
    } else {
        concat("TPM unavailable but VM not detected: ", found)
    };
    FallbackDecision { allowed: tpm_failure && vm_detected, tpm_failure, vm_detected, reason }
}

/// A machine counts as a virtual one exactly if one of these holds: a text that
/// names it is a marker, the name of its first disk is one, its hypervisor is
/// another than Microsoft's and named like a marker, it has the guest integration
/// services, or it has Microsoft's hypervisor and Microsoft for a manufacturer.
pub proof fn vm_detected_iff(
    identity: Seq<char>,
    disk: Option<Seq<char>>,
    vendor: Option<Seq<char>>,
    guest: bool,
)
    ensures
        detection(identity, disk, vendor, guest).0 <==> {
            ||| vm_signal(identity)
            ||| disk matches Some(name) && vm_signal(name)
            ||| vendor matches Some(name) && vm_signal(name) && !is_microsoft_hv(name)
            ||| guest
            ||| vendor matches Some(name) && is_microsoft_hv(name) && made_by_microsoft(identity)
        },
{
}

/// Microsoft's hypervisor alone does not make a machine a virtual one: a physical
/// machine with virtualization-based security keeps its TPM.
pub proof fn microsoft_hypervisor_alone_is_no_vm(
    identity: Seq<char>,
    disk: Option<Seq<char>>,
    vendor: Seq<char>,
)
    requires
        is_microsoft_hv(vendor),
        !vm_signal(identity),
        disk matches Some(name) ==> !vm_signal(name),
        !made_by_microsoft(identity),
    ensures
        !detection(identity, disk, Some(vendor), false).0,
{
}

/// A machine that is not a Windows machine never falls back.
pub proof fn other_machines_are_no_vm(probe: SystemProbe)
    requires
        probe is Other,
    ensures
        !probe_detection(probe).0,
{
}

/// There is always a reason to log.
pub proof fn reason_is_given(probe: SystemProbe)
    ensures
        probe_detection(probe).1.len() > 0,
{
    reveal_strlit("registry VM marker: ");
    reveal_strlit("virtual disk device: ");
    reveal_strlit("CPUID hypervisor vendor: ");
    reveal_strlit("Hyper-V guest: Microsoft Hv CPUID + Microsoft Corporation manufacturer (");
    reveal_strlit("Hyper-V VDI: Microsoft Hv CPUID + guest integration services present (");
    reveal_strlit("hypervisor bit set without VM indicators: ");
    reveal_strlit("Hyper-V guest integration services present without CPUID hypervisor (");
    reveal_strlit(
        "no VM registry markers, no CPUID hypervisor vendor, no Hyper-V guest integration",
    );
    reveal_strlit("no VM indicators detected: ");
    reveal_strlit("non-Windows build");
}

/// Texts that differ in the case of ASCII letters only are marked alike.
pub proof fn case_does_not_matter(a: Seq<char>, b: Seq<char>)
    requires
        equal_ignoring_ascii_case(a, b),
    ensures
        vm_signal(a) == vm_signal(b),
        mentions_any(a, tpm_markers()) == mentions_any(b, tpm_markers()),
        is_microsoft_hv(a) == is_microsoft_hv(b),
        made_by_microsoft(a) == made_by_microsoft(b),
{
}

/// The disk is the value that is read under its label.
pub proof fn disk_is_found_under_its_label(reads: Seq<RegistryRead>)
    requires
        reads.len() == REGISTRY_VALUES,
    ensures
        value_of(read_values(reads), DISK_LABEL@) == registry_text(reads[9]),
{
    reveal_strlit("SystemInformation\\SystemManufacturer");
    reveal_strlit("SystemInformation\\SystemProductName");
    reveal_strlit("BIOS\\SystemManufacturer");
    reveal_strlit("BIOS\\SystemProductName");
    reveal_strlit("BIOS\\BIOSVendor");
    reveal_strlit("BIOS\\BIOSVersion");
    reveal_strlit("BIOS\\SystemVersion");
    reveal_strlit("BIOS\\BaseBoardManufacturer");
    reveal_strlit("BIOS\\BaseBoardProduct");
    reveal_strlit("Disk\\Enum\\0");
    let values = read_values(reads);
    let label = DISK_LABEL@;
    assert(label[0] == 'D');
    assert forall|i: int| 0 <= i < 9 implies (#[trigger] values[i]).0 != label by {
        assert(values[i].0[0] != 'D');
    }
    assert(values[9].0 == label);
    lemma_value_of_skips(values, label, 9);
    assert(values.skip(9)[0] == values[9]);
}

proof fn lemma_value_of_skips(
    values: Seq<(Seq<char>, Option<Seq<char>>)>,
    label: Seq<char>,
    k: int,
)
    requires
        0 <= k <= values.len(),
        forall|i: int| 0 <= i < k ==> (#[trigger] values[i]).0 != label,
    ensures
        value_of(values, label) == value_of(values.skip(k), label),
    decreases k,
{
    if k == 0 {
        assert(values.skip(0) =~= values);
    } else {
        let rest = values.drop_first();
        assert forall|i: int| 0 <= i < k - 1 implies (#[trigger] rest[i]).0 != label by {
            assert(rest[i] == values[i + 1]);
        }
        lemma_value_of_skips(rest, label, k - 1);
        assert(rest.skip(k - 1) =~= values.skip(k));
    }
}

/// Each value that is there is among the present ones.
proof fn lemma_present_holds(values: Seq<(Seq<char>, Option<Seq<char>>)>, i: int) -> (k: int)
    requires
        0 <= i < values.len(),
        values[i].1 is Some,
    ensures
        0 <= k < present(values).len(),
        present(values)[k] == values[i].1->0,
    decreases values.len(),
{
    if i == values.len() - 1 {
        present(values).len() - 1
    } else {
        lemma_present_holds(values.drop_last(), i)
    }
}

/// A marker in any one of the texts that name the machine is enough: joining
/// them hides none.
pub proof fn marked_value_is_enough(
    values: Seq<(Seq<char>, Option<Seq<char>>)>,
    i: int,
    vendor: Option<Seq<char>>,
    guest: bool,
)
    requires
        0 <= i < IDENTITY_VALUES,
        i < values.len(),
        values[i].1 matches Some(value) && vm_signal(value),
    ensures
        vm_signal(identity(values)),
        detection(identity(values), value_of(values, DISK_LABEL@), vendor, guest).0,
{
    let front = identity_values(values);
    assert(front[i] == values[i]);
    let k = lemma_present_holds(front, i);
    let around = join_holds_each_part(present(front), " | "@, k);
    mention_survives_embedding(around.0, values[i].1->0, around.1, vm_markers());
}

/// Microsoft for a manufacturer in any one of the texts that name the machine,
/// together with Microsoft's hypervisor, makes a Hyper-V guest.
pub proof fn microsoft_machine_with_its_hypervisor_is_vm(
    values: Seq<(Seq<char>, Option<Seq<char>>)>,
    i: int,
    vendor: Seq<char>,
    guest: bool,
)
    requires
        0 <= i < IDENTITY_VALUES,
        i < values.len(),
        values[i].1 matches Some(value) && made_by_microsoft(value),
        is_microsoft_hv(vendor),
    ensures
        detection(identity(values), value_of(values, DISK_LABEL@), Some(vendor), guest).0,
{
    lemma_microsoft_in_identity(values, i);
}

/// A text stored in the registry with a zero at its end is read back without the
/// zero characters and the white space at its ends.
pub proof fn stored_text_is_read_back(text: Seq<char>, read: RegistryRead)
    requires
        read.ok,
        read.bytes == 2 * (utf16_encode(text).len() + 1),
        read.buffer@.len() > utf16_encode(text).len(),
        read.buffer@.take(utf16_encode(text).len() as int) == utf16_encode(text),
    ensures
        registry_text(read) == non_empty(trim_system_text(text)),
{
    utf16_round_trip(text);
}

/// A text marks a virtual machine exactly if its lower-case form holds one of
/// these twenty names.
pub proof fn vm_signal_iff_a_name_occurs(text: Seq<char>)
    ensures
        vm_signal(text) <==> {
            ||| contains(ascii_lower(text), "vmware"@)
            ||| contains(ascii_lower(text), "virtualbox"@)
            ||| contains(ascii_lower(text), "qemu"@)
            ||| contains(ascii_lower(text), "kvm"@)
            ||| contains(ascii_lower(text), "xen"@)
            ||| contains(ascii_lower(text), "parallels"@)
            ||| contains(ascii_lower(text), "hyper-v"@)
            ||| contains(ascii_lower(text), "virtual machine"@)
            ||| contains(ascii_lower(text), "amazon ec2"@)
            ||| contains(ascii_lower(text), "google compute"@)
            ||| contains(ascii_lower(text), "google cloud"@)
            ||| contains(ascii_lower(text), "microsoft corporation | virtual machine"@)
            ||| contains(ascii_lower(text), "nutanix"@)
            ||| contains(ascii_lower(text), "citrix"@)
            ||| contains(ascii_lower(text), "bhyve"@)
            ||| contains(ascii_lower(text), "cyberark"@)
            ||| contains(ascii_lower(text), "seabios"@)
            ||| contains(ascii_lower(text), "proxmox"@)
            ||| contains(ascii_lower(text), "openstack"@)
            ||| contains(ascii_lower(text), "oracle vm"@)
        },
        mentions_any(text, vm_markers()) == vm_signal(text),
{
    let markers = vm_markers();
    assert(markers.len() == 20);
    assert(markers[0] == "vmware"@);
    assert(markers[1] == "virtualbox"@);
    assert(markers[2] == "qemu"@);
    assert(markers[3] == "kvm"@);
    assert(markers[4] == "xen"@);
    assert(markers[5] == "parallels"@);
    assert(markers[6] == "hyper-v"@);
    assert(markers[7] == "virtual machine"@);
    assert(markers[8] == "amazon ec2"@);
    assert(markers[9] == "google compute"@);
    assert(markers[10] == "google cloud"@);
    assert(markers[11] == "microsoft corporation | virtual machine"@);
    assert(markers[12] == "nutanix"@);
    assert(markers[13] == "citrix"@);
    assert(markers[14] == "bhyve"@);
    assert(markers[15] == "cyberark"@);
    assert(markers[16] == "seabios"@);
    assert(markers[17] == "proxmox"@);
    assert(markers[18] == "openstack"@);
    assert(markers[19] == "oracle vm"@);
}

/// An error is that of a missing or unusable TPM exactly if its lower-case form
/// holds one of these eleven texts.
pub proof fn tpm_failure_iff_a_text_occurs(text: Seq<char>)
    ensures
        mentions_any(text, tpm_markers()) <==> {
            ||| contains(ascii_lower(text), "hardware security module not available"@)
            ||| contains(ascii_lower(text), "ncryptcreatepersistedkey"@)
            ||| contains(ascii_lower(text), "ncryptopenstorageprovider"@)
            ||| contains(ascii_lower(text), "ncryptfinalizekey"@)
            ||| contains(ascii_lower(text), "microsoft platform crypto provider"@)
            ||| contains(ascii_lower(text), "tpm"@)
            ||| contains(ascii_lower(text), "0x80090030"@)
            ||| contains(ascii_lower(text), "0x80090029"@)
            ||| contains(ascii_lower(text), "0x80090016"@)
            ||| contains(ascii_lower(text), "0x8028000f"@)
            ||| contains(ascii_lower(text), "0x80280001"@)
        },
{
    let markers = tpm_markers();
    assert(markers.len() == 11);
    assert(markers[0] == "hardware security module not available"@);
    assert(markers[1] == "ncryptcreatepersistedkey"@);
    assert(markers[2] == "ncryptopenstorageprovider"@);
    assert(markers[3] == "ncryptfinalizekey"@);
    assert(markers[4] == "microsoft platform crypto provider"@);
    assert(markers[5] == "tpm"@);
    assert(markers[6] == "0x80090030"@);
    assert(markers[7] == "0x80090029"@);
    assert(markers[8] == "0x80090016"@);
    assert(markers[9] == "0x8028000f"@);
    assert(markers[10] == "0x80280001"@);
}

/// The hypervisor of Microsoft and its name as a manufacturer are told by these
/// texts, whatever the case of their letters.
pub proof fn microsoft_is_told_by_name(text: Seq<char>)
    ensures
        is_microsoft_hv(text) <==> ascii_lower(text) == "microsoft hv"@,
        made_by_microsoft(text) <==> contains(ascii_lower(text), "microsoft corporation"@),
{
    reveal_strlit("Microsoft Hv");
    reveal_strlit("microsoft hv");
    assert(ascii_lower("Microsoft Hv"@) =~= "microsoft hv"@);
}

/// The twelve registry values that are read, and where each of them stands.
pub proof fn registry_values_that_are_read()
    ensures
        registry_table().len() == 12,
        registry_table()[0].0 == "SystemInformation\\SystemManufacturer"@,
        registry_table()[0].1 == "SYSTEM\\CurrentControlSet\\Control\\SystemInformation"@,
        registry_table()[0].2 == "SystemManufacturer"@,
        registry_table()[1].0 == "SystemInformation\\SystemProductName"@,
        registry_table()[1].1 == "SYSTEM\\CurrentControlSet\\Control\\SystemInformation"@,
        registry_table()[1].2 == "SystemProductName"@,
        registry_table()[2].0 == "BIOS\\SystemManufacturer"@,
        registry_table()[2].1 == "HARDWARE\\DESCRIPTION\\System\\BIOS"@,
        registry_table()[2].2 == "SystemManufacturer"@,
        registry_table()[3].0 == "BIOS\\SystemProductName"@,
        registry_table()[3].1 == "HARDWARE\\DESCRIPTION\\System\\BIOS"@,
        registry_table()[3].2 == "SystemProductName"@,
        registry_table()[4].0 == "BIOS\\BIOSVendor"@,
        registry_table()[4].1 == "HARDWARE\\DESCRIPTION\\System\\BIOS"@,
        registry_table()[4].2 == "BIOSVendor"@,
        registry_table()[5].0 == "BIOS\\BIOSVersion"@,
        registry_table()[5].1 == "HARDWARE\\DESCRIPTION\\System\\BIOS"@,
        registry_table()[5].2 == "BIOSVersion"@,
        registry_table()[6].0 == "BIOS\\SystemVersion"@,
        registry_table()[6].1 == "HARDWARE\\DESCRIPTION\\System\\BIOS"@,
        registry_table()[6].2 == "SystemVersion"@,
        registry_table()[7].0 == "BIOS\\BaseBoardManufacturer"@,
        registry_table()[7].1 == "HARDWARE\\DESCRIPTION\\System\\BIOS"@,
        registry_table()[7].2 == "BaseBoardManufacturer"@,
        registry_table()[8].0 == "BIOS\\BaseBoardProduct"@,
        registry_table()[8].1 == "HARDWARE\\DESCRIPTION\\System\\BIOS"@,
        registry_table()[8].2 == "BaseBoardProduct"@,
        registry_table()[9].0 == "Disk\\Enum\\0"@,
        registry_table()[9].1 == "SYSTEM\\CurrentControlSet\\Services\\Disk\\Enum"@,
        registry_table()[9].2 == "0"@,
        registry_table()[10].0 == "CentralProcessor\\ProcessorNameString"@,
        registry_table()[10].1 == "HARDWARE\\DESCRIPTION\\System\\CentralProcessor\\0"@,
        registry_table()[10].2 == "ProcessorNameString"@,
        registry_table()[11].0 == "CentralProcessor\\VendorIdentifier"@,
        registry_table()[11].1 == "HARDWARE\\DESCRIPTION\\System\\CentralProcessor\\0"@,
        registry_table()[11].2 == "VendorIdentifier"@,
{
}

/// The text that names a machine has nothing to begin with. A value among the
/// first nine that is not there adds nothing, one that is there is added behind
/// the others with a bar between, and values behind the ninth add nothing.
pub proof fn identity_joins_the_first_nine_values(
    values: Seq<(Seq<char>, Option<Seq<char>>)>,
    label: Seq<char>,
    value: Option<Seq<char>>,
)
    ensures
        identity(Seq::empty()) == Seq::<char>::empty(),
        values.len() >= 9 ==> identity(values.push((label, value))) == identity(values),
        values.len() < 9 && value is None ==> identity(values.push((label, value))) == identity(values),
        values.len() < 9 && (exists|i: int|
            0 <= i < values.len() && (#[trigger] values[i]).1 is Some) ==> (value matches Some(text)
            ==> identity(values.push((label, value))) == identity(values) + " | "@ + text),
        values.len() < 9 && (forall|i: int|
            0 <= i < values.len() ==> (#[trigger] values[i]).1 is None) ==> (value matches Some(text)
            ==> identity(values.push((label, value))) == text && identity(values).len() == 0),
{
    let longer = values.push((label, value));
    if values.len() >= 9 {
        assert(longer.take(9) =~= values.take(9));
        assert(identity_values(values) =~= values.take(9));
    } else {
        assert(longer.drop_last() =~= values);
        if longer.len() == 9 {
            assert(longer.take(9) =~= longer);
        }
        assert(identity_values(longer) == longer);
        if let Some(text) = value {
            let parts = present(values);
            assert(parts.push(text).drop_last() =~= parts);
            if exists|i: int| 0 <= i < values.len() && (#[trigger] values[i]).1 is Some {
                let i = choose|i: int| 0 <= i < values.len() && (#[trigger] values[i]).1 is Some;
                let k = lemma_present_holds(values, i);
                assert(parts.len() > 0);
            } else {
                lemma_present_empty(values);
                assert(parts.push(text)[0] == text);
            }
        }
    }
}

proof fn lemma_present_empty(values: Seq<(Seq<char>, Option<Seq<char>>)>)
    requires
        forall|i: int| 0 <= i < values.len() ==> (#[trigger] values[i]).1 is None,
    ensures
        present(values).len() == 0,
    decreases values.len(),
{
    if values.len() > 0 {
        let front = values.drop_last();
        assert forall|i: int| 0 <= i < front.len() implies (#[trigger] front[i]).1 is None by {
            assert(front[i] == values[i]);
        }
        lemma_present_empty(front);
    }
}

/// The value of a label is that of its first occurrence; a label that does not
/// occur has none.
pub proof fn value_of_first_occurrence(
    values: Seq<(Seq<char>, Option<Seq<char>>)>,
    label: Seq<char>,
    k: int,
)
    requires
        0 <= k <= values.len(),
        forall|i: int| 0 <= i < k ==> (#[trigger] values[i]).0 != label,
    ensures
        k < values.len() && values[k].0 == label ==> value_of(values, label) == values[k].1,
        k == values.len() ==> value_of(values, label) is None,
{
    lemma_value_of_skips(values, label, k);
    if k < values.len() {
        assert(values.skip(k)[0] == values[k]);
    }
}

/// Each present value is that of some place in the list.
proof fn lemma_present_comes_from(values: Seq<(Seq<char>, Option<Seq<char>>)>, k: int) -> (i: int)
    requires
        0 <= k < present(values).len(),
    ensures
        0 <= i < values.len(),
        values[i].1 == Some(present(values)[k]),
    decreases values.len(),
{
    let front = values.drop_last();
    if k < present(front).len() {
        let i = lemma_present_comes_from(front, k);
        assert(front[i] == values[i]);
        i
    } else {
        values.len() - 1
    }
}

/// A text that does not reach over a bar: it holds none, and has no blank at its
/// ends.
spec fn is_plain(needle: Seq<char>) -> bool {
    &&& needle.len() > 0
    &&& needle[0] != ' '
    &&& needle.last() != ' '
    &&& forall|i: int| 0 <= i < needle.len() ==> #[trigger] needle[i] != '|'
}

/// A plain text that stands in joined parts stands in one of them.
proof fn lemma_plain_text_in_one_part(parts: Seq<Seq<char>>, needle: Seq<char>) -> (k: int)
    requires
        is_plain(needle),
        contains(join(parts, " | "@), needle),
    ensures
        0 <= k < parts.len(),
        contains(parts[k], needle),
    decreases parts.len(),
{
    reveal_strlit(" | ");
    let whole = join(parts, " | "@);
    let at = choose|at: int| occurs_at(whole, needle, at);
    let n = needle.len() as int;
    assert forall|i: int| 0 <= i < n implies #[trigger] needle[i] == whole[at + i] by {
        assert(whole.subrange(at, at + n)[i] == needle[i]);
    }
    if parts.len() == 0 {
        assert(whole[at] == needle[0]);
        0
    } else if parts.len() == 1 {
        0
    } else {
        let front = join(parts.drop_last(), " | "@);
        let last = parts.last();
        let m = front.len() as int;
        assert(whole == front + " | "@ + last);
        assert(whole[m] == ' ' && whole[m + 1] == '|' && whole[m + 2] == ' ');
        if at <= m + 1 < at + n {
            assert(needle[m + 1 - at] == whole[m + 1]);
        }
        if at + n == m + 1 {
            assert(needle[n - 1] == whole[m]);
        }
        if at == m + 2 {
            assert(needle[0] == whole[m + 2]);
        }
        if at + n <= m {
            assert(front.subrange(at, at + n) =~= needle);
            assert(occurs_at(front, needle, at));
            let k = lemma_plain_text_in_one_part(parts.drop_last(), needle);
            assert(parts.drop_last()[k] == parts[k]);
            k
        } else {
            let place = at - m - 3;
            assert(last.subrange(place, place + n) =~= needle);
            assert(occurs_at(last, needle, place));
            parts.len() - 1
        }
    }
}

spec fn lower_parts(parts: Seq<Seq<char>>) -> Seq<Seq<char>> {
    Seq::new(parts.len(), |i: int| ascii_lower(parts[i]))
}

proof fn lemma_lower_join(parts: Seq<Seq<char>>)
    ensures
        ascii_lower(join(parts, " | "@)) == join(lower_parts(parts), " | "@),
    decreases parts.len(),
{
    reveal_strlit(" | ");
    if parts.len() == 0 {
        assert(ascii_lower(join(parts, " | "@)) =~= join(lower_parts(parts), " | "@));
    } else if parts.len() == 1 {
    } else {
        lemma_lower_join(parts.drop_last());
        assert(lower_parts(parts).drop_last() =~= lower_parts(parts.drop_last()));
        assert(ascii_lower(" | "@) =~= " | "@);
        assert(ascii_lower(join(parts, " | "@)) =~= ascii_lower(join(parts.drop_last(), " | "@))
            + " | "@ + ascii_lower(parts.last()));
    }
}

/// A plain text in the lower-case form of what names a machine stands in that of
/// one of the first nine values.
proof fn lemma_plain_text_in_one_value(
    values: Seq<(Seq<char>, Option<Seq<char>>)>,
    needle: Seq<char>,
) -> (i: int)
    requires
        is_plain(needle),
        contains(ascii_lower(identity(values)), needle),
    ensures
        0 <= i < values.len(),
        i < 9,
        values[i].1 matches Some(value) && contains(ascii_lower(value), needle),
{
    let front = identity_values(values);
    let parts = present(front);
    lemma_lower_join(parts);
    let k = lemma_plain_text_in_one_part(lower_parts(parts), needle);
    let i = lemma_present_comes_from(front, k);
    assert(front[i] == values[i]);
    i
}

/// Every marker but the one with a bar is plain, and that one holds another.
proof fn lemma_markers_are_plain()
    ensures
        forall|k: int|
            0 <= k < vm_markers().len() && k != 11 ==> is_plain(#[trigger] vm_markers()[k]),
        contains(vm_markers()[11], vm_markers()[7]),
        vm_markers().len() == 20,
        is_plain("microsoft corporation"@),
{
    reveal_strlit("vmware");
    reveal_strlit("virtualbox");
    reveal_strlit("qemu");
    reveal_strlit("kvm");
    reveal_strlit("xen");
    reveal_strlit("parallels");
    reveal_strlit("hyper-v");
    reveal_strlit("virtual machine");
    reveal_strlit("amazon ec2");
    reveal_strlit("google compute");
    reveal_strlit("google cloud");
    reveal_strlit("microsoft corporation | virtual machine");
    reveal_strlit("nutanix");
    reveal_strlit("citrix");
    reveal_strlit("bhyve");
    reveal_strlit("cyberark");
    reveal_strlit("seabios");
    reveal_strlit("proxmox");
    reveal_strlit("openstack");
    reveal_strlit("oracle vm");
    reveal_strlit("microsoft corporation");
    let whole = vm_markers()[11];
    assert(whole.subrange(24, 39) =~= "virtual machine"@);
    assert(occurs_at(whole, vm_markers()[7], 24));
}

/// The text that names a machine is marked exactly if one of the first nine
/// values is: joining them neither hides a marker nor makes one up. The same holds
/// of Microsoft as a manufacturer.
pub proof fn identity_is_marked_iff_a_value_is(values: Seq<(Seq<char>, Option<Seq<char>>)>)
    ensures
        vm_signal(identity(values)) <==> exists|i: int|
            0 <= i < values.len() && i < 9 && ((#[trigger] values[i]).1 matches Some(value) && vm_signal(
                value,
            )),
        made_by_microsoft(identity(values)) <==> exists|i: int|
            0 <= i < values.len() && i < 9 && ((#[trigger] values[i]).1 matches Some(value)
                && made_by_microsoft(value)),
{
    let text = identity(values);
    let lower = ascii_lower(text);
    lemma_markers_are_plain();
    if vm_signal(text) {
        let k = choose|k: int| 0 <= k < vm_markers().len() && contains(lower, #[trigger] vm_markers()[k]);
        if k == 11 {
            contains_iff_it_splits(lower, vm_markers()[11]);
            let (before, after) = choose|before: Seq<char>, after: Seq<char>|
                lower == #[trigger] (before + vm_markers()[11] + after);
            contains_survives_embedding(before, vm_markers()[11], after, vm_markers()[7]);
        }
        let plain: int = if k == 11 {
            7
        } else {
            k
        };
        let i = lemma_plain_text_in_one_value(values, vm_markers()[plain]);
        assert(vm_signal(values[i].1->0));
    }
    if exists|i: int|
        0 <= i < values.len() && i < 9 && ((#[trigger] values[i]).1 matches Some(value) && vm_signal(
            value,
        )) {
        let i = choose|i: int|
            0 <= i < values.len() && i < 9 && ((#[trigger] values[i]).1 matches Some(value)
                && vm_signal(value));
        marked_value_is_enough(values, i, None, false);
    }
    if made_by_microsoft(text) {
        let i = lemma_plain_text_in_one_value(values, "microsoft corporation"@);
        assert(made_by_microsoft(values[i].1->0));
    }
    if exists|i: int|
        0 <= i < values.len() && i < 9 && ((#[trigger] values[i]).1 matches Some(value)
            && made_by_microsoft(value)) {
        let i = choose|i: int|
            0 <= i < values.len() && i < 9 && ((#[trigger] values[i]).1 matches Some(value)
                && made_by_microsoft(value));
        lemma_microsoft_in_identity(values, i);
    }
}

/// A Windows machine counts as a virtual one exactly if one of the first nine
/// registry texts that were read is marked, or that of the disk, or the
/// hypervisor's vendor is another than Microsoft's and marked, or the guest
/// integration services are there, or Microsoft's hypervisor comes with Microsoft
/// as a manufacturer in one of the first nine texts.
pub proof fn windows_machine_is_vm_iff(
    reads: Vec<RegistryRead>,
    cpuid: Option<CpuidReading>,
    guest: bool,
    arch: &'static str,
)
    requires
        reads@.len() == 12,
    ensures
        probe_detection(SystemProbe::Windows { reads, cpuid, hyperv_guest: guest, arch }).0 <==> {
            ||| exists|i: int|
                0 <= i < 9 && (registry_text(#[trigger] reads@[i]) matches Some(text) && vm_signal(text))
            ||| registry_text(reads@[9]) matches Some(text) && vm_signal(text)
            ||| cpuid matches Some(reading) && (vendor_text(reading) matches Some(vendor) && vm_signal(
                vendor,
            ) && ascii_lower(vendor) != "microsoft hv"@)
            ||| guest
            ||| cpuid matches Some(reading) && (vendor_text(reading) matches Some(vendor)
                && ascii_lower(vendor) == "microsoft hv"@) && exists|i: int|
                0 <= i < 9 && (registry_text(#[trigger] reads@[i]) matches Some(text) && contains(
                    ascii_lower(text),
                    "microsoft corporation"@,
                ))
        },
{
    let values = read_values(reads@);
    disk_is_found_under_its_label(reads@);
    identity_is_marked_iff_a_value_is(values);
    vm_detected_iff(identity(values), value_of(values, DISK_LABEL@), read_vendor(cpuid), guest);
    if let Some(vendor) = read_vendor(cpuid) {
        microsoft_is_told_by_name(vendor);
    }
    assert forall|i: int| 0 <= i < 9 implies (#[trigger] values[i]).1 == registry_text(reads@[i]) by {}
    if vm_signal(identity(values)) {
        let i = choose|i: int|
            0 <= i < values.len() && i < 9 && ((#[trigger] values[i]).1 matches Some(value)
                && vm_signal(value));
        assert(registry_text(reads@[i]) is Some);
    }
    if exists|i: int|
        0 <= i < 9 && (registry_text(#[trigger] reads@[i]) matches Some(text) && vm_signal(text)) {
        let i = choose|i: int|
            0 <= i < 9 && (registry_text(#[trigger] reads@[i]) matches Some(text) && vm_signal(text));
        assert(values[i].1 == registry_text(reads@[i]));
    }
    if made_by_microsoft(identity(values)) {
        let i = choose|i: int|
            0 <= i < values.len() && i < 9 && ((#[trigger] values[i]).1 matches Some(value)
                && made_by_microsoft(value));
        assert(registry_text(reads@[i]) is Some);
    }
    if exists|i: int|
        0 <= i < 9 && (registry_text(#[trigger] reads@[i]) matches Some(text) && contains(
            ascii_lower(text),
            "microsoft corporation"@,
        )) {
        let i = choose|i: int|
            0 <= i < 9 && (registry_text(#[trigger] reads@[i]) matches Some(text) && contains(
                ascii_lower(text),
                "microsoft corporation"@,
            ));
        assert(values[i].1 == registry_text(reads@[i]));
        assert(made_by_microsoft(values[i].1->0));
    }
}

/// A machine of whose registry texts none holds one of the names of virtual
/// machines, without a hypervisor and without the guest integration services, is
/// no virtual machine, and never falls back.
pub proof fn unmarked_machine_is_no_vm(reads: Vec<RegistryRead>, arch: &'static str)
    requires
        reads@.len() == 12,
        forall|i: int|
            0 <= i < 12 ==> (registry_text(#[trigger] reads@[i]) matches Some(text) ==> !vm_signal(text)),
    ensures
        !probe_detection(
            SystemProbe::Windows { reads, cpuid: None, hyperv_guest: false, arch },
        ).0,
{
    windows_machine_is_vm_iff(reads, None, false, arch);
}

/// What is logged as the reason of a detection, for each sign that decides.
pub proof fn detection_names_its_evidence(
    identity: Seq<char>,
    disk: Option<Seq<char>>,
    vendor: Option<Seq<char>>,
    guest: bool,
)
    ensures
        ({
            let reason = detection(identity, disk, vendor, guest).1;
            let disk_decides = !vm_signal(identity) && (disk matches Some(name) && vm_signal(name));
            let undecided = !vm_signal(identity) && !disk_decides;
            let hv = vendor matches Some(name) && ascii_lower(name) == "microsoft hv"@;
            let other = !hv && (vendor matches Some(name) && vm_signal(name));
            &&& vm_signal(identity) ==> reason == "registry VM marker: "@ + identity
            &&& disk_decides ==> reason == "virtual disk device: "@ + disk->0
            &&& undecided && other ==> reason == "CPUID hypervisor vendor: "@ + vendor->0
            &&& undecided && hv && contains(ascii_lower(identity), "microsoft corporation"@) ==> reason
                == "Hyper-V guest: Microsoft Hv CPUID + Microsoft Corporation manufacturer ("@ + identity
                + ")"@
            &&& undecided && hv && !contains(ascii_lower(identity), "microsoft corporation"@) && guest
                ==> reason == "Hyper-V VDI: Microsoft Hv CPUID + guest integration services present ("@
                + identity + ")"@
            &&& undecided && hv && !contains(ascii_lower(identity), "microsoft corporation"@) && !guest
                ==> reason == "hypervisor bit set without VM indicators: "@ + vendor->0
                + " (manufacturer: "@ + identity + ")"@
            &&& undecided && !hv && !other && guest ==> reason
                == "Hyper-V guest integration services present without CPUID hypervisor ("@ + identity
                + ")"@
            &&& undecided && !hv && !other && !guest && identity.len() > 0 ==> reason
                == "no VM indicators detected: "@ + identity
            &&& undecided && !hv && !other && !guest && identity.len() == 0 ==> reason
                == "no VM registry markers, no CPUID hypervisor vendor, no Hyper-V guest integration"@
        }),
{
    if let Some(name) = vendor {
        microsoft_is_told_by_name(name);
    }
    microsoft_is_told_by_name(identity);
}

/// What is logged about a decision, for each way it can go.
pub proof fn decision_says_why(tpm_failure: bool, vm_detected: bool, found: Seq<char>)
    ensures
        !tpm_failure ==> decision_reason(tpm_failure, (vm_detected, found))
            == "TPM failure did not look like missing/unusable TPM hardware"@,
        tpm_failure && vm_detected ==> decision_reason(tpm_failure, (vm_detected, found))
            == "TPM unavailable and VM detected: "@ + found,
        tpm_failure && !vm_detected ==> decision_reason(tpm_failure, (vm_detected, found))
            == "TPM unavailable but VM not detected: "@ + found,
{
}

/// Of a registry read only success, the length and the units before the zero at
/// the end count. It gives a text exactly if those units are that of some text
/// with something left after trimming, and then what is left.
pub proof fn registry_read_gives_trimmed_text(read: RegistryRead, text: Seq<char>)
    ensures
        !read.ok || read.bytes < 2 ==> registry_text(read) is None,
        read.ok && read.bytes >= 2 && written_units(read) == utf16_encode(text) ==> registry_text(read)
            == if trim_system_text(text).len() == 0 {
            None
        } else {
            Some(trim_system_text(text))
        },
        registry_text(read) matches Some(left) ==> left.len() > 0 && exists|whole: Seq<char>|
            written_units(read) == #[trigger] utf16_encode(whole) && left == trim_system_text(whole),
{
    let units = written_units(read);
    utf16_round_trip(text);
    if read.bytes >= 2 {
        let len = read.bytes / 2 - 1;
        if len < read.buffer@.len() {
            assert(units =~= read.buffer@.take(len));
        } else {
            assert(units =~= read.buffer@);
        }
    }
    if let Some(left) = registry_text(read) {
        let whole = utf16_decode(units)->0;
        decoded_text_has_these_units(units, whole);
        assert(units == utf16_encode(whole));
    }
}

/// The units of a registry read that stand before the zero at the end: as many as
/// the length tells, less one, and no more than there are.
pub open spec fn written_units(read: RegistryRead) -> Seq<u16> {
    Seq::new(
        if read.bytes / 2 <= read.buffer@.len() {
            (read.bytes / 2 - 1) as nat
        } else {
            read.buffer@.len()
        },
        |i: int| read.buffer@[i],
    )
}

/// Bytes below 128 are characters of their own number.
proof fn lemma_decode_ascii(bytes: Seq<u8>)
    requires
        forall|i: int| 0 <= i < bytes.len() ==> #[trigger] bytes[i] < 128,
    ensures
        valid_utf8(bytes),
        decode_utf8(bytes) == Seq::new(bytes.len(), |i: int| bytes[i] as char),
    decreases bytes.len(),
{
    let expected = Seq::new(bytes.len(), |i: int| bytes[i] as char);
    if bytes.len() == 0 {
        assert(decode_utf8(bytes) =~= expected);
    } else {
        let first = bytes[0];
        assert(first < 128);
        assert((first & 0x7f) as u32 == first && (first as u32) & 0x7f == first) by (bit_vector)
            requires
                first < 128,
        ;
        let rest = pop_first_scalar(bytes);
        assert(rest =~= bytes.drop_first());
        lemma_decode_ascii(rest);
        assert(valid_utf8(bytes));
        assert(decode_first_scalar(bytes) == bytes[0]);
        assert(decode_utf8(bytes) =~= expected);
    }
}

proof fn lemma_visible_is_no_white_space(b: u8)
    requires
        33 <= b < 127,
    ensures
        !is_white_space(b as char),
        !is_nul(b as char),
{
}

/// Without the hypervisor bit, the highest of the register, there is no vendor
/// text. Twelve visible ASCII characters in the three registers, each from its
/// least significant byte on, are the vendor text as they stand.
pub proof fn vendor_text_is_read_byte_by_byte(cpuid: CpuidReading)
    ensures
        hypervisor_bit(cpuid.leaf1_ecx) <==> cpuid.leaf1_ecx >= 0x8000_0000,
        cpuid.leaf1_ecx < 0x8000_0000 ==> vendor_text(cpuid) is None,
        vendor_bytes(cpuid).len() == 12,
        ({
            let b = vendor_bytes(cpuid);
            &&& cpuid.ebx == b[0] + 0x100 * b[1] + 0x1_0000 * b[2] + 0x100_0000 * b[3]
            &&& cpuid.ecx == b[4] + 0x100 * b[5] + 0x1_0000 * b[6] + 0x100_0000 * b[7]
            &&& cpuid.edx == b[8] + 0x100 * b[9] + 0x1_0000 * b[10] + 0x100_0000 * b[11]
        }),
        cpuid.leaf1_ecx >= 0x8000_0000 && (forall|i: int|
            0 <= i < 12 ==> 33 <= #[trigger] vendor_bytes(cpuid)[i] < 127) ==> vendor_text(cpuid)
            == Some(Seq::new(12, |i: int| vendor_bytes(cpuid)[i] as char)),
        cpuid.leaf1_ecx >= 0x8000_0000 && !valid_utf8(vendor_bytes(cpuid)) ==> vendor_text(cpuid)
            is None,
        cpuid.leaf1_ecx >= 0x8000_0000 && valid_utf8(vendor_bytes(cpuid)) ==> vendor_text(cpuid)
            == if trim_system_text(decode_utf8(vendor_bytes(cpuid))).len() == 0 {
            None
        } else {
            Some(trim_system_text(decode_utf8(vendor_bytes(cpuid))))
        },
{
    le_bytes32_are_digits(cpuid.ebx);
    le_bytes32_are_digits(cpuid.ecx);
    le_bytes32_are_digits(cpuid.edx);
    let b = vendor_bytes(cpuid);
    if forall|i: int| 0 <= i < 12 ==> 33 <= #[trigger] b[i] < 127 {
        lemma_decode_ascii(b);
        let text = decode_utf8(b);
        lemma_visible_is_no_white_space(b[0]);
        lemma_visible_is_no_white_space(b[11]);
        assert(text[0] == b[0] as char && text.last() == b[11] as char);
        assert(trim_system_text(text) == text);
        assert(text =~= Seq::new(12, |i: int| vendor_bytes(cpuid)[i] as char));
    }
}

/// Microsoft as a manufacturer in one of the first nine values shows in the text
/// that names the machine.
proof fn lemma_microsoft_in_identity(values: Seq<(Seq<char>, Option<Seq<char>>)>, i: int)
    requires
        0 <= i < IDENTITY_VALUES,
        i < values.len(),
        values[i].1 matches Some(value) && made_by_microsoft(value),
    ensures
        made_by_microsoft(identity(values)),
{
    let front = identity_values(values);
    assert(front[i] == values[i]);
    let value = values[i].1->0;
    let k = lemma_present_holds(front, i);
    let around = join_holds_each_part(present(front), " | "@, k);
    contains_survives_embedding(
        ascii_lower(around.0),
        ascii_lower(value),
        ascii_lower(around.1),
        "microsoft corporation"@,
    );
    assert(ascii_lower(identity(values)) =~= ascii_lower(around.0) + ascii_lower(value)
        + ascii_lower(around.1));
}

/// What is read is shown under its label: the text of each read under the label
/// of its place, and of the processor's reply its vendor text.
pub proof fn what_is_read_is_shown(
    reads: Seq<RegistryRead>,
    cpuid: Option<CpuidReading>,
    values: Seq<(String, Option<String>)>,
    i: int,
)
    ensures
        read_values(reads).len() == 12,
        0 <= i < 12 ==> read_values(reads)[i] == (registry_table()[i].0, registry_text(reads[i])),
        cpuid is None ==> read_vendor(cpuid) is None,
        cpuid matches Some(reading) ==> read_vendor(cpuid) == vendor_text(reading),
        values_view(values).len() == values.len(),
        0 <= i < values.len() ==> values_view(values)[i].0 == values[i].0@,
        0 <= i < values.len() ==> (values[i].1 matches Some(text) ==> values_view(values)[i].1 == Some(
            text@,
        )),
        0 <= i < values.len() ==> (values[i].1 is None ==> values_view(values)[i].1 is None),
{
}

/// The machine and the reason of a probe that is no Windows machine.
pub proof fn other_machine_says_so(arch: &'static str)
    ensures
        probe_detection(SystemProbe::Other { arch }) == (false, "non-Windows build"@),
{
}

/// Whoever asks whether a text marks a virtual machine is told yes exactly for
/// these twenty names.
pub proof fn vm_string_signal_tells(value: &str, signal: bool)
    requires
        call_ensures(vm_string_signal, (value,), signal),
    ensures
        signal <==> {
            ||| contains(ascii_lower(value@), "vmware"@)
            ||| contains(ascii_lower(value@), "virtualbox"@)
            ||| contains(ascii_lower(value@), "qemu"@)
            ||| contains(ascii_lower(value@), "kvm"@)
            ||| contains(ascii_lower(value@), "xen"@)
            ||| contains(ascii_lower(value@), "parallels"@)
            ||| contains(ascii_lower(value@), "hyper-v"@)
            ||| contains(ascii_lower(value@), "virtual machine"@)
            ||| contains(ascii_lower(value@), "amazon ec2"@)
            ||| contains(ascii_lower(value@), "google compute"@)
            ||| contains(ascii_lower(value@), "google cloud"@)
            ||| contains(ascii_lower(value@), "microsoft corporation | virtual machine"@)
            ||| contains(ascii_lower(value@), "nutanix"@)
            ||| contains(ascii_lower(value@), "citrix"@)
            ||| contains(ascii_lower(value@), "bhyve"@)
            ||| contains(ascii_lower(value@), "cyberark"@)
            ||| contains(ascii_lower(value@), "seabios"@)
            ||| contains(ascii_lower(value@), "proxmox"@)
            ||| contains(ascii_lower(value@), "openstack"@)
            ||| contains(ascii_lower(value@), "oracle vm"@)
        },
{
    vm_signal_iff_a_name_occurs(value@);
}

/// Whoever asks whether an error is that of a missing or unusable TPM is told yes
/// exactly for these eleven texts.
pub proof fn is_tpm_unavailable_error_tells(error: &str, unavailable: bool)
    requires
        call_ensures(is_tpm_unavailable_error, (error,), unavailable),
    ensures
        unavailable <==> {
            ||| contains(ascii_lower(error@), "hardware security module not available"@)
            ||| contains(ascii_lower(error@), "ncryptcreatepersistedkey"@)
            ||| contains(ascii_lower(error@), "ncryptopenstorageprovider"@)
            ||| contains(ascii_lower(error@), "ncryptfinalizekey"@)
            ||| contains(ascii_lower(error@), "microsoft platform crypto provider"@)
            ||| contains(ascii_lower(error@), "tpm"@)
            ||| contains(ascii_lower(error@), "0x80090030"@)
            ||| contains(ascii_lower(error@), "0x80090029"@)
            ||| contains(ascii_lower(error@), "0x80090016"@)
            ||| contains(ascii_lower(error@), "0x8028000f"@)
            ||| contains(ascii_lower(error@), "0x80280001"@)
        },
{
    tpm_failure_iff_a_text_occurs(error@);
}

/// The text of a registry read that succeeded is the text of the units before the
/// zero at the end, trimmed; there is none where the read failed, the length is
/// less than a zero, or nothing is left.
pub proof fn registry_string_gives(read: &RegistryRead, text: Seq<char>, given: Option<String>)
    requires
        call_ensures(registry_string, (read,), given),
    ensures
        !read.ok || read.bytes < 2 ==> given is None,
        read.ok && read.bytes >= 2 && written_units(*read) == utf16_encode(text) ==> {
            &&& given is None <==> trim_system_text(text).len() == 0
            &&& given matches Some(left) ==> left@ == trim_system_text(text)
        },
        given is Some ==> exists|whole: Seq<char>|
            written_units(*read) == #[trigger] utf16_encode(whole),
{
    registry_read_gives_trimmed_text(*read, text);
}

/// Twelve visible ASCII characters in the registers are the vendor text that the
/// caller gets, and without the hypervisor bit there is none.
pub proof fn cpuid_hypervisor_vendor_gives(cpuid: &CpuidReading, given: Option<String>)
    requires
        call_ensures(cpuid_hypervisor_vendor, (cpuid,), given),
    ensures
        cpuid.leaf1_ecx < 0x8000_0000 ==> given is None,
        ({
            let b = vendor_bytes(*cpuid);
            cpuid.leaf1_ecx >= 0x8000_0000 && (forall|i: int| 0 <= i < 12 ==> 33 <= #[trigger] b[i] < 127)
                ==> (given matches Some(vendor) && vendor@.len() == 12 && forall|i: int|
                0 <= i < 12 ==> #[trigger] vendor@[i] == b[i] as char)
        }),
{
    vendor_text_is_read_byte_by_byte(*cpuid);
}

/// A fallback is allowed exactly where the error is that of a missing or unusable
/// TPM and the machine a virtual one; what is reported of both is so, and the
/// reason names what was found.
pub proof fn fallback_is_allowed_iff(error: &str, probe: &SystemProbe, decision: FallbackDecision)
    requires
        call_ensures(should_use_dpapi_after_tpm_failure, (error, probe), decision),
    ensures
        decision.allowed <==> mentions_any(error@, tpm_markers()) && probe_detection(*probe).0,
        decision.tpm_failure <==> mentions_any(error@, tpm_markers()),
        decision.vm_detected <==> probe_detection(*probe).0,
        probe is Other ==> !decision.allowed,
        decision.allowed ==> decision.reason@ == "TPM unavailable and VM detected: "@
            + probe_detection(*probe).1,
        decision.tpm_failure && !decision.vm_detected ==> decision.reason@
            == "TPM unavailable but VM not detected: "@ + probe_detection(*probe).1,
        !decision.tpm_failure ==> decision.reason@
            == "TPM failure did not look like missing/unusable TPM hardware"@,
{
    let found = probe_detection(*probe);
    decision_says_why(decision.tpm_failure, found.0, found.1);
}

/// What is collected is what was read: the texts under their labels, the vendor
/// text, the guest integration services and the architecture, with the conclusion.
pub proof fn diagnostics_show_what_was_read(
    reads: Vec<RegistryRead>,
    cpuid: Option<CpuidReading>,
    guest: bool,
    arch: &'static str,
    diagnostics: VmDiagnostics,
    i: int,
)
    requires
        call_ensures(
            collect_vm_diagnostics,
            (&SystemProbe::Windows { reads, cpuid, hyperv_guest: guest, arch },),
            diagnostics,
        ),
    ensures
        diagnostics.vm_detected == probe_detection(
            SystemProbe::Windows { reads, cpuid, hyperv_guest: guest, arch },
        ).0,
        diagnostics.detection_reason@ == probe_detection(
            SystemProbe::Windows { reads, cpuid, hyperv_guest: guest, arch },
        ).1,
        diagnostics.registry_values@.len() == 12,
        0 <= i < 12 ==> diagnostics.registry_values@[i].0@ == registry_table()[i].0,
        0 <= i < 12 ==> opt_view(diagnostics.registry_values@[i].1) == registry_text(reads@[i]),
        opt_view(diagnostics.cpuid_hypervisor_vendor) == read_vendor(cpuid),
        diagnostics.hyperv_guest_integration == guest,
        diagnostics.arch == arch,
{
    let values = values_view(diagnostics.registry_values@);
    assert(values == read_values(reads@));
    assert(values.len() == 12);
    if 0 <= i < 12 {
        assert(values[i] == read_values(reads@)[i]);
    }
}

} // verus!
