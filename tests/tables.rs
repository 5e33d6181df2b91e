use runix::acpi::{valid_checksum, SDTHeader, SDTHeaderError, SDTSignature, XSDPError, XSDP, XSDT};
use runix::cpu::{CPUInfo, CpuVendor};
use runix::lapic::{LAPICRegister, LocalAPIC, RegisterWrite, PIT};
use runix::madt::MADT;

fn with_checksum(mut bytes: Vec<u8>) -> Vec<u8> {
    let sum: u32 = bytes.iter().map(|b| *b as u32).sum();
    bytes[9] = bytes[9].wrapping_sub((sum % 256) as u8);
    bytes
}

fn header(signature: &[u8; 4], length: u32) -> Vec<u8> {
    let mut b = Vec::new();
    b.extend_from_slice(signature);
    b.extend_from_slice(&length.to_le_bytes());
    b.push(2);
    b.push(0);
    b.extend_from_slice(b"OEMID ");
    b.extend_from_slice(b"TABLEID ");
    b.extend_from_slice(&7u32.to_le_bytes());
    b.extend_from_slice(&0x1234u32.to_le_bytes());
    b.extend_from_slice(&9u32.to_le_bytes());
    b
}

#[test]
fn checksum_sums_to_zero() {
    assert!(valid_checksum(&[]));
    assert!(valid_checksum(&[0x80, 0x80]));
    assert!(!valid_checksum(&[1, 2, 3]));
    assert!(valid_checksum(&[0xFF, 0x01, 0x00]));
}

#[test]
fn header_is_read_little_endian() {
    let bytes = with_checksum(header(b"APIC", 36));
    let h = SDTHeader::from_bytes(&bytes);
    assert_eq!(h.signature, *b"APIC");
    assert_eq!(h.length, 36);
    assert_eq!(h.revision, 2);
    assert_eq!(h.oemid, *b"OEMID ");
    assert_eq!(h.creator_id, 0x1234);
    assert!(h.valid_signature(&SDTSignature::madt()));
    assert!(!h.valid_signature(&SDTSignature::xsdt()));
}

#[test]
fn table_check_reports_which_part_failed() {
    let good = with_checksum(header(b"APIC", 36));
    assert_eq!(SDTHeader::try_read(&good, &SDTSignature::madt()).unwrap().length, 36);
    assert_eq!(
        SDTHeader::try_read(&good, &SDTSignature::fadt()).unwrap_err(),
        SDTHeaderError::SDTSignatureValidationError
    );
    let mut bad_sum = good.clone();
    bad_sum[9] = bad_sum[9].wrapping_add(1);
    assert_eq!(
        SDTHeader::try_read(&bad_sum, &SDTSignature::madt()).unwrap_err(),
        SDTHeaderError::SDTChecksumValidationError
    );
    assert_eq!(
        SDTHeader::try_read(&bad_sum, &SDTSignature::ssdt()).unwrap_err(),
        SDTHeaderError::SDTHeaderNotFoundError
    );
    assert_eq!(
        SDTHeader::try_read(&good[..20], &SDTSignature::madt()).unwrap_err(),
        SDTHeaderError::SDTHeaderNotFoundError
    );
}

#[test]
fn root_pointer_needs_its_signature() {
    let mut b = Vec::new();
    b.extend_from_slice(b"RSD PTR ");
    b.push(0);
    b.extend_from_slice(b"OEMID ");
    b.push(2);
    b.extend_from_slice(&0x1000u32.to_le_bytes());
    b.extend_from_slice(&36u32.to_le_bytes());
    b.extend_from_slice(&0x1_2345_6789u64.to_le_bytes());
    b.push(0);
    b.extend_from_slice(&[0, 0, 0]);
    let x = XSDP::try_read(&b).unwrap();
    assert_eq!(x.xsdt_address, 0x1_2345_6789);
    assert_eq!(x.rsdt_address, 0x1000);
    assert!(x.valid_signature());
    assert!(x.valid_extended_checksum());
    b[0] = b'X';
    assert_eq!(XSDP::try_read(&b).unwrap_err(), XSDPError::XSDReadError);
    assert_eq!(XSDP::try_read(&b[..10]).unwrap_err(), XSDPError::XSDReadError);
}

#[test]
fn root_table_lists_table_addresses() {
    let mut b = header(b"XSDT", 36 + 16);
    b.extend_from_slice(&0xAAAAu64.to_le_bytes());
    b.extend_from_slice(&0xBBBB_0000_0000u64.to_le_bytes());
    let b = with_checksum(b);
    let t = XSDT::try_read(&b).unwrap();
    assert_eq!(t.sdt_address_table, vec![0xAAAA, 0xBBBB_0000_0000]);
    assert_eq!(XSDT::try_read(&b[..40]).unwrap_err(), SDTHeaderError::SDTChecksumValidationError);
}

#[test]
fn madt_records_are_sorted_by_type() {
    let mut body = Vec::new();
    body.extend_from_slice(&0xFEE0_0000u32.to_le_bytes());
    body.extend_from_slice(&1u32.to_le_bytes());
    // an enabled processor
    body.extend_from_slice(&[0, 8, 0, 0, 1, 0, 0, 0]);
    // a disabled processor
    body.extend_from_slice(&[0, 8, 1, 1, 0, 0, 0, 0]);
    // an I/O APIC
    body.extend_from_slice(&[1, 12, 4, 0]);
    body.extend_from_slice(&0xFEC0_0000u32.to_le_bytes());
    body.extend_from_slice(&0u32.to_le_bytes());
    // an interrupt source override
    body.extend_from_slice(&[2, 10, 0, 0]);
    body.extend_from_slice(&2u32.to_le_bytes());
    body.extend_from_slice(&0u16.to_le_bytes());
    // a record of another type
    body.extend_from_slice(&[4, 6, 0, 0, 0, 0]);
    // a local APIC address override
    body.extend_from_slice(&[5, 12, 0, 0]);
    body.extend_from_slice(&0xFEE0_1000u64.to_le_bytes());
    let mut b = header(b"APIC", (36 + body.len()) as u32);
    b.extend_from_slice(&body);
    let b = with_checksum(b);
    let madt = MADT::try_read(&b).unwrap();
    assert_eq!(madt.apic_headers.madt_header.lapic_address, 0xFEE0_0000);
    let s = &madt.apic_structures;
    assert_eq!(s.processor_local_apic_records.len(), 1);
    assert_eq!(s.processor_local_apic_records[0].processor_id, 0);
    assert!(s.processor_local_apic_records[0].cpu_active_flag());
    assert_eq!(s.io_apic_records.len(), 1);
    assert_eq!(s.io_apic_records[0].io_apic_physical_address, 0xFEC0_0000);
    assert_eq!(s.interrupt_source_override_records[0].global_system_interrupt, 2);
    assert_eq!(s.local_apic_address_override.unwrap().local_apic_address_64, 0xFEE0_1000);
}

#[test]
fn madt_walk_stops_at_a_broken_record() {
    let mut body = Vec::new();
    body.extend_from_slice(&0xFEE0_0000u32.to_le_bytes());
    body.extend_from_slice(&0u32.to_le_bytes());
    body.extend_from_slice(&[0, 0, 0, 0, 1, 0, 0, 0]);
    let mut b = header(b"APIC", (36 + body.len()) as u32);
    b.extend_from_slice(&body);
    let b = with_checksum(b);
    let madt = MADT::try_read(&b).unwrap();
    assert!(madt.apic_structures.processor_local_apic_records.is_empty());
    assert_eq!(MADT::try_read(&b[..40]).err().map(|e| e), Some(SDTHeaderError::SDTHeaderNotFoundError));
}

#[test]
fn cpu_vendor_from_identification() {
    let intel = CPUInfo::from_features(b"GenuineIntel", true, true, false, true, false, 3);
    assert!(matches!(intel.cpu_vendor, Some(CpuVendor::Intel)));
    assert_eq!(intel.apic_id, Some(3));
    assert!(intel.acpi_enabled && intel.msr_present && !intel.sse3_enabled);
    let amd = CPUInfo::from_features(b"AuthenticAMD", false, false, true, false, false, 3);
    assert!(matches!(amd.cpu_vendor, Some(CpuVendor::Amd)));
    assert_eq!(amd.apic_id, None);
    let other = CPUInfo::from_features(b"HygonGenuine", false, false, false, false, false, 0);
    assert!(other.cpu_vendor.is_none());
    assert_eq!(CpuVendor::Intel.to_str(), "Intel");
    assert_eq!(CpuVendor::Amd.to_str(), "AMD");
    assert!(CPUInfo::new().cpu_vendor.is_none());
}

#[test]
fn local_apic_base_follows_msr_then_override_then_header() {
    let mut body = Vec::new();
    body.extend_from_slice(&0xFEE0_0000u32.to_le_bytes());
    body.extend_from_slice(&0u32.to_le_bytes());
    let mut b = header(b"APIC", (36 + body.len()) as u32);
    b.extend_from_slice(&body);
    let b = with_checksum(b);
    let madt = MADT::try_read(&b).unwrap();
    assert!(LocalAPIC::try_read_and_init_from_madt(false, None, &madt).is_none());
    let from_header = LocalAPIC::try_read_and_init_from_madt(true, None, &madt).unwrap();
    assert_eq!(from_header.virtual_address.raw(), 0xFFFF_8880_FEE0_0000);
    let from_msr = LocalAPIC::try_read_and_init_from_madt(true, Some(0xFEE0_0900), &madt).unwrap();
    assert_eq!(from_msr.virtual_address.raw(), 0xFFFF_8880_FEE0_0000);
    assert_eq!(
        from_msr.enable_interrupts(),
        RegisterWrite { offset: LAPICRegister::SPURIOUS_INTERRUPT_VECTOR, value: 0x1FF }
    );
    assert_eq!(from_msr.signal_end_of_interrupt().offset, 0xB0);
    assert_eq!(from_msr.clear_task_priority_register().value, 0);
    assert_eq!(from_msr.stop_timer()[1].value, 0x1_0000);
    assert_eq!(from_msr.register_address(0x20).raw(), 0xFFFF_8880_FEE0_0020);
    let pit = PIT::new();
    assert_eq!(pit.set_count(0xABCD), [0xCD, 0xAB]);
    assert_eq!(pit.read_count(0xCD, 0xAB), 0xABCD);
    assert_eq!(pit.channel_0.port_number, 0x40);
}
