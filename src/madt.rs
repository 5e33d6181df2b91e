//! The multiple APIC description table (MADT) and the interrupt controller
//! records that follow its header.
use vstd::prelude::*;
use crate::acpi::{le16, le32, le64, read_u16, read_u32, read_u64, SDTHeader, SDTHeaderError, SDTSignature, XSDT, MADT_RECORDS_OFFSET};

verus! {

/// The type and length bytes that start every record.
#[derive(Debug, Clone, Copy, PartialEq, Eq, Structural)]
pub struct APICStructureHeader {
    pub entry_type: u8,
    pub length: u8,
}

/// A processor and its local APIC (record type 0, 8 bytes).
#[derive(Debug, Clone, Copy, PartialEq, Eq, Structural)]
pub struct ProcessorLocalAPIC {
    pub apic_struct_header: APICStructureHeader,
    pub processor_id: u8,
    pub lapic_id: u8,
    pub flags: u32,
}

/// An I/O APIC (record type 1, 12 bytes).
#[derive(Debug, Clone, Copy, PartialEq, Eq, Structural)]
pub struct IOAPIC {
    pub apic_struct_header: APICStructureHeader,
    pub io_apic_id: u8,
    pub reserved: u8,
    pub io_apic_physical_address: u32,
    pub global_system_interrupt_base: u32,
}

/// An interrupt source override (record type 2, 10 bytes).
#[derive(Debug, Clone, Copy, PartialEq, Eq, Structural)]
pub struct InterruptSourceOverride {
    pub apic_struct_header: APICStructureHeader,
    pub bus: u8,
    pub source: u8,
    pub global_system_interrupt: u32,
    pub mps_inti_flags: u16,
}

/// A 64-bit local APIC address that replaces the one of the MADT header
/// (record type 5, 12 bytes).
#[derive(Debug, Clone, Copy, PartialEq, Eq, Structural)]
pub struct LocalAPICAddressOverride {
    pub apic_struct_header: APICStructureHeader,
    pub reserved: u16,
    pub local_apic_address_64: u64,
}

/// The fixed fields after the system description header.
#[derive(Debug, Clone, Copy, PartialEq, Eq, Structural)]
pub struct MADTHeader {
    pub lapic_address: u32,
    pub multiple_apic_flags: u32,
}

#[derive(Debug, Clone, Copy)]
pub struct APICHeaders {
    pub sdt_header: SDTHeader,
    pub madt_header: MADTHeader,
}

/// The records the kernel uses: enabled processors, I/O APICs, interrupt
/// source overrides, and the last local APIC address override.
#[derive(Debug)]
pub struct APICStructures {
    pub processor_local_apic_records: Vec<ProcessorLocalAPIC>,
    pub io_apic_records: Vec<IOAPIC>,
    pub interrupt_source_override_records: Vec<InterruptSourceOverride>,
    pub local_apic_address_override: Option<LocalAPICAddressOverride>,
}

#[derive(Debug)]
pub struct MADT {
    pub apic_headers: APICHeaders,
    pub apic_structures: APICStructures,
}

/// The tables the kernel reads at boot.
#[derive(Debug)]
pub struct ACPITables {
    pub xsdt: XSDT,
    pub madt: MADT,
}

/// The records of a table, as sequences.
pub struct Records {
    pub lapics: Seq<ProcessorLocalAPIC>,
    pub io_apics: Seq<IOAPIC>,
    pub overrides: Seq<InterruptSourceOverride>,
    pub address_override: Option<LocalAPICAddressOverride>,
}

pub open spec fn no_records() -> Records {
    Records {
        lapics: Seq::empty(),
        io_apics: Seq::empty(),
        overrides: Seq::empty(),
        address_override: None,
    }
}

pub open spec fn header_at(b: Seq<u8>, off: int) -> APICStructureHeader {
    APICStructureHeader { entry_type: b[off], length: b[off + 1] }
}

pub open spec fn lapic_at(b: Seq<u8>, off: int) -> ProcessorLocalAPIC {
    ProcessorLocalAPIC {
        apic_struct_header: header_at(b, off),
        processor_id: b[off + 2],
        lapic_id: b[off + 3],
        flags: le32(b, off + 4) as u32,
    }
}

pub open spec fn io_apic_at(b: Seq<u8>, off: int) -> IOAPIC {
    IOAPIC {
        apic_struct_header: header_at(b, off),
        io_apic_id: b[off + 2],
        reserved: b[off + 3],
        io_apic_physical_address: le32(b, off + 4) as u32,
        global_system_interrupt_base: le32(b, off + 8) as u32,
    }
}

pub open spec fn override_at(b: Seq<u8>, off: int) -> InterruptSourceOverride {
    InterruptSourceOverride {
        apic_struct_header: header_at(b, off),
        bus: b[off + 2],
        source: b[off + 3],
        global_system_interrupt: le32(b, off + 4) as u32,
        mps_inti_flags: le16(b, off + 8) as u16,
    }
}

pub open spec fn address_override_at(b: Seq<u8>, off: int) -> LocalAPICAddressOverride {
    LocalAPICAddressOverride {
        apic_struct_header: header_at(b, off),
        reserved: le16(b, off + 2) as u16,
        local_apic_address_64: le64(b, off + 4) as u64,
    }
}

/// `rest` with the record at `off` in front of it. A processor counts only
/// when it is enabled; a record shorter than its type needs is skipped, as
/// are types the kernel does not use. A later address override wins.
pub open spec fn with_record(b: Seq<u8>, off: int, rest: Records) -> Records {
    let t = b[off];
    let len = b[off + 1];
    if t == 0 && len >= 8 && lapic_at(b, off).flags == 1 {
        Records { lapics: seq![lapic_at(b, off)] + rest.lapics, ..rest }
    } else if t == 1 && len >= 12 {
        Records { io_apics: seq![io_apic_at(b, off)] + rest.io_apics, ..rest }
    } else if t == 2 && len >= 10 {
        Records { overrides: seq![override_at(b, off)] + rest.overrides, ..rest }
    } else if t == 5 && len >= 12 && rest.address_override.is_none() {
        Records { address_override: Some(address_override_at(b, off)), ..rest }
    } else {
        rest
    }
}

/// Whether a whole record starts at `off` before `end`.
pub open spec fn record_fits(b: Seq<u8>, end: int, off: int) -> bool {
    off + 2 <= end && b[off + 1] >= 2 && off + b[off + 1] <= end
}

/// The records from `off` up to `end`; the walk stops at the first record
/// that is cut off or whose length is below two bytes.
pub open spec fn records_from(b: Seq<u8>, end: int, off: int) -> Records
    decreases end - off,
{
    if off < 0 || !record_fits(b, end, off) {
        no_records()
    } else {
        with_record(b, off, records_from(b, end, off + b[off + 1]))
    }
}

/// `acc` followed by `rest`.
pub open spec fn join(acc: Records, rest: Records) -> Records {
    Records {
        lapics: acc.lapics + rest.lapics,
        io_apics: acc.io_apics + rest.io_apics,
        overrides: acc.overrides + rest.overrides,
        address_override: if rest.address_override.is_some() {
            rest.address_override
        } else {
            acc.address_override
        },
    }
}

impl ProcessorLocalAPIC {
    /// Whether the processor is enabled.
    pub fn cpu_active_flag(&self) -> (r: bool)
        ensures
            r == (self.flags == 1),
    {
        self.flags == 1
    }
}

impl APICStructures {
    pub open spec fn records(&self) -> Records {
        Records {
            lapics: self.processor_local_apic_records@,
            io_apics: self.io_apic_records@,
            overrides: self.interrupt_source_override_records@,
            address_override: self.local_apic_address_override,
        }
    }

    /// The records of the table in `bytes` from offset `start` up to `end`.
    pub fn read_apic_structures(bytes: &[u8], start: usize, end: usize) -> (r: APICStructures)
        requires
            end <= bytes@.len(),
        ensures
            r.records() == records_from(bytes@, end as int, start as int),
    {
        let ghost b = bytes@;
        let mut lapics: Vec<ProcessorLocalAPIC> = Vec::new();
        let mut io_apics: Vec<IOAPIC> = Vec::new();
        let mut overrides: Vec<InterruptSourceOverride> = Vec::new();
        let mut address_override: Option<LocalAPICAddressOverride> = None;
        let mut off: usize = start;
        while off < end && end - off >= 2 && bytes[off + 1] >= 2 && (bytes[off + 1] as usize) <= end - off
            invariant
                end <= b.len(),
                b == bytes@,
                join(
                    Records {
                        lapics: lapics@,
                        io_apics: io_apics@,
                        overrides: overrides@,
                        address_override,
                    },
                    records_from(b, end as int, off as int),
                ) == records_from(b, end as int, start as int),
            decreases end - off,
        {
            let t = bytes[off];
            let len = bytes[off + 1];
            let ghost acc = Records {
                lapics: lapics@,
                io_apics: io_apics@,
                overrides: overrides@,
                address_override,
            };
            let ghost rest = records_from(b, end as int, off + len);
            assert(records_from(b, end as int, off as int) == with_record(b, off as int, rest));
            let header = APICStructureHeader { entry_type: t, length: len };
            if t == 0 && len >= 8 {
                let record = ProcessorLocalAPIC {
                    apic_struct_header: header,
                    processor_id: bytes[off + 2],
                    lapic_id: bytes[off + 3],
                    flags: read_u32(bytes, off + 4),
                };
                if record.cpu_active_flag() {
                    lapics.push(record);
                    assert(lapics@ + rest.lapics =~= acc.lapics + (seq![record] + rest.lapics));
                }
            } else if t == 1 && len >= 12 {
                let record = IOAPIC {
                    apic_struct_header: header,
                    io_apic_id: bytes[off + 2],
                    reserved: bytes[off + 3],
                    io_apic_physical_address: read_u32(bytes, off + 4),
                    global_system_interrupt_base: read_u32(bytes, off + 8),
                };
                io_apics.push(record);
                assert(io_apics@ + rest.io_apics =~= acc.io_apics + (seq![record] + rest.io_apics));
            } else if t == 2 && len >= 10 {
                let record = InterruptSourceOverride {
                    apic_struct_header: header,
                    bus: bytes[off + 2],
                    source: bytes[off + 3],
                    global_system_interrupt: read_u32(bytes, off + 4),
                    mps_inti_flags: read_u16(bytes, off + 8),
                };
                overrides.push(record);
                assert(overrides@ + rest.overrides =~= acc.overrides + (seq![record] + rest.overrides));
            } else if t == 5 && len >= 12 {
                address_override = Some(
                    LocalAPICAddressOverride {
                        apic_struct_header: header,
                        reserved: read_u16(bytes, off + 2),
                        local_apic_address_64: read_u64(bytes, off + 4),
                    },
                );
            }
            off = off + len as usize;
            proof {
                let acc2 = Records {
                    lapics: lapics@,
                    io_apics: io_apics@,
                    overrides: overrides@,
                    address_override,
                };
                assert(join(acc2, rest) =~= join(acc, with_record(b, off - len, rest)));
            }
        }
        proof {
            let acc = Records {
                lapics: lapics@,
                io_apics: io_apics@,
                overrides: overrides@,
                address_override,
            };
            assert(records_from(b, end as int, off as int) == no_records());
            assert(join(acc, no_records()) =~= acc);
        }
        APICStructures {
            processor_local_apic_records: lapics,
            io_apic_records: io_apics,
            interrupt_source_override_records: overrides,
            local_apic_address_override: address_override,
        }
    }
}

impl MADT {
    /// The MADT in `bytes`: its header checked as any table's, then the
    /// fixed fields and the records up to the table's length.
    pub fn try_read(bytes: &[u8]) -> (r: Result<MADT, SDTHeaderError>)
        ensures
            bytes@.len() < MADT_RECORDS_OFFSET ==> r matches Err(SDTHeaderError::SDTHeaderNotFoundError),
            bytes@.len() >= MADT_RECORDS_OFFSET ==> match SDTHeader::spec_try_read(
                bytes@,
                seq![0x41u8, 0x50, 0x49, 0x43],
            ) {
                Ok(h) => r matches Ok(m) && m.apic_headers.sdt_header == h
                    && m.apic_headers.madt_header == (MADTHeader {
                    lapic_address: le32(bytes@, 36) as u32,
                    multiple_apic_flags: le32(bytes@, 40) as u32,
                }) && m.apic_structures.records() == records_from(
                    bytes@,
                    if h.length < bytes@.len() {
                        h.length as int
                    } else {
                        bytes@.len() as int
                    },
                    MADT_RECORDS_OFFSET as int,
                ),
                Err(e) => r == Err::<MADT, SDTHeaderError>(e),
            },
    {
        if bytes.len() < MADT_RECORDS_OFFSET {
            return Err(SDTHeaderError::SDTHeaderNotFoundError);
        }
        let signature = SDTSignature::madt();
        assert(signature.inner@ =~= seq![0x41u8, 0x50, 0x49, 0x43]);
        let sdt_header = match SDTHeader::try_read(bytes, &signature) {
            Ok(h) => h,
            Err(e) => return Err(e),
        };
        let madt_header = MADTHeader {
            lapic_address: read_u32(bytes, 36),
            multiple_apic_flags: read_u32(bytes, 40),
        };
        let end: usize = if (sdt_header.length as usize) < bytes.len() {
            sdt_header.length as usize
        } else {
            bytes.len()
        };
        let apic_structures = APICStructures::read_apic_structures(bytes, MADT_RECORDS_OFFSET, end);
        Ok(MADT { apic_headers: APICHeaders { sdt_header, madt_header }, apic_structures })
    }
}

} // verus!
