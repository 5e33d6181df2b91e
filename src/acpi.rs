//! ACPI tables as they lie in memory: the system description header and
//! its checksum, the root pointer (XSDP), the extended root table (XSDT)
//! and the interrupt controller table (MADT) with its records.
use vstd::prelude::*;

verus! {

/// The size in bytes of a system description header.
pub const SDT_HEADER_SIZE: usize = 36;

/// The size in bytes of the root pointer.
pub const XSDP_SIZE: usize = 36;

/// The size in bytes of the header and the fixed fields of the MADT.
pub const MADT_RECORDS_OFFSET: usize = 44;

pub open spec fn le16(b: Seq<u8>, i: int) -> int {
    b[i] + b[i + 1] * 0x100
}

pub open spec fn le32(b: Seq<u8>, i: int) -> int {
    le16(b, i) + le16(b, i + 2) * 0x1_0000
}

pub open spec fn le64(b: Seq<u8>, i: int) -> int {
    le32(b, i) + le32(b, i + 4) * 0x1_0000_0000
}

/// The sum of the bytes.
pub open spec fn byte_sum(s: Seq<u8>) -> int
    decreases s.len(),
{
    if s.len() == 0 {
        0
    } else {
        byte_sum(s.drop_last()) + s.last()
    }
}

pub(crate) fn read_u16(b: &[u8], i: usize) -> (r: u16)
    requires
        i + 2 <= b@.len(),
    ensures
        r == le16(b@, i as int),
{
    b[i] as u16 + (b[i + 1] as u16) * 0x100
}

pub(crate) fn read_u32(b: &[u8], i: usize) -> (r: u32)
    requires
        i + 4 <= b@.len(),
    ensures
        r == le32(b@, i as int),
{
    proof {
        assert(i + 2 < b.len() + 1);
    }
    let lo = read_u16(b, i) as u32;
    let hi = read_u16(b, i + 2) as u32;
    assert(hi * 0x1_0000 <= 0xFFFF_0000) by (nonlinear_arith)
        requires
            hi <= 0xFFFF,
    ;
    lo + hi * 0x1_0000
}

pub(crate) fn read_u64(b: &[u8], i: usize) -> (r: u64)
    requires
        i + 8 <= b@.len(),
    ensures
        r == le64(b@, i as int),
{
    proof {
        assert(i + 4 < b.len() + 1);
    }
    let lo = read_u32(b, i) as u64;
    let hi = read_u32(b, i + 4) as u64;
    assert(hi * 0x1_0000_0000 <= 0xFFFF_FFFF_0000_0000) by (nonlinear_arith)
        requires
            hi <= 0xFFFF_FFFF,
    ;
    lo + hi * 0x1_0000_0000
}

/// Whether the bytes sum to zero modulo 256, as every ACPI table's do.
pub fn valid_checksum(bytes: &[u8]) -> (r: bool)
    ensures
        r == (byte_sum(bytes@) % 256 == 0),
{
    let mut sum: u64 = 0;
    let mut i: usize = 0;
    while i < bytes.len()
        invariant
            0 <= i <= bytes@.len(),
            sum < 256,
            sum == byte_sum(bytes@.take(i as int)) % 256,
        decreases bytes@.len() - i,
    {
        proof {
            let t = bytes@.take(i as int + 1);
            assert(t.drop_last() =~= bytes@.take(i as int));
            vstd::arithmetic::div_mod::lemma_add_mod_noop(
                byte_sum(bytes@.take(i as int)),
                bytes@[i as int] as int,
                256,
            );
            vstd::arithmetic::div_mod::lemma_small_mod(bytes@[i as int] as nat, 256);
            vstd::arithmetic::div_mod::lemma_mod_twice(byte_sum(bytes@.take(i as int)), 256);
        }
        sum = (sum + bytes[i] as u64) % 256;
        i = i + 1;
    }
    assert(bytes@.take(i as int) =~= bytes@);
    sum == 0
}

/// The four-byte signature of a system description table.
#[derive(Debug, Clone, Copy)]
pub struct SDTSignature {
    pub inner: [u8; 4],
}

impl SDTSignature {
    /// "FACP"
    pub fn fadt() -> (r: Self)
        ensures
            r.inner@ == seq![0x46u8, 0x41, 0x43, 0x50],
    {
        let r = SDTSignature { inner: [0x46, 0x41, 0x43, 0x50] };
        assert(r.inner@ =~= seq![0x46u8, 0x41, 0x43, 0x50]);
        r
    }

    /// "APIC"
    pub fn madt() -> (r: Self)
        ensures
            r.inner@ == seq![0x41u8, 0x50, 0x49, 0x43],
    {
        let r = SDTSignature { inner: [0x41, 0x50, 0x49, 0x43] };
        assert(r.inner@ =~= seq![0x41u8, 0x50, 0x49, 0x43]);
        r
    }

    /// "SSDT"
    pub fn ssdt() -> (r: Self)
        ensures
            r.inner@ == seq![0x53u8, 0x53, 0x44, 0x54],
    {
        let r = SDTSignature { inner: [0x53, 0x53, 0x44, 0x54] };
        assert(r.inner@ =~= seq![0x53u8, 0x53, 0x44, 0x54]);
        r
    }

    /// "XSDT"
    pub fn xsdt() -> (r: Self)
        ensures
            r.inner@ == seq![0x58u8, 0x53, 0x44, 0x54],
    {
        let r = SDTSignature { inner: [0x58, 0x53, 0x44, 0x54] };
        assert(r.inner@ =~= seq![0x58u8, 0x53, 0x44, 0x54]);
        r
    }
}

/// The header that starts every system description table.
#[derive(Debug, Clone, Copy)]
pub struct SDTHeader {
    pub signature: [u8; 4],
    pub length: u32,
    pub revision: u8,
    pub checksum: u8,
    pub oemid: [u8; 6],
    pub oem_table_id: [u8; 8],
    pub oem_revision: u32,
    pub creator_id: u32,
    pub creator_revision: u32,
}

/// Why a table was not accepted.
#[derive(Debug, Clone, Copy, PartialEq, Eq, Structural)]
pub enum SDTHeaderError {
    /// Neither the signature nor the checksum is right, or the bytes are
    /// too few for a header.
    SDTHeaderNotFoundError,
    SDTSignatureValidationError,
    SDTChecksumValidationError,
}

impl SDTHeader {
    /// The header read from the first 36 bytes, little-endian.
    pub open spec fn spec_from(b: Seq<u8>) -> SDTHeader {
        SDTHeader {
            signature: [b[0], b[1], b[2], b[3]],
            length: le32(b, 4) as u32,
            revision: b[8],
            checksum: b[9],
            oemid: [b[10], b[11], b[12], b[13], b[14], b[15]],
            oem_table_id: [b[16], b[17], b[18], b[19], b[20], b[21], b[22], b[23]],
            oem_revision: le32(b, 24) as u32,
            creator_id: le32(b, 28) as u32,
            creator_revision: le32(b, 32) as u32,
        }
    }

    /// The outcome of checking the table `b` against signature `sig`.
    pub open spec fn spec_try_read(b: Seq<u8>, sig: Seq<u8>) -> Result<SDTHeader, SDTHeaderError> {
        if b.len() < SDT_HEADER_SIZE {
            Err(SDTHeaderError::SDTHeaderNotFoundError)
        } else {
            let h = Self::spec_from(b);
            let sig_ok = h.signature@ == sig;
            let sum_ok = byte_sum(b) % 256 == 0;
            if sig_ok && sum_ok {
                Ok(h)
            } else if sum_ok {
                Err(SDTHeaderError::SDTSignatureValidationError)
            } else if sig_ok {
                Err(SDTHeaderError::SDTChecksumValidationError)
            } else {
                Err(SDTHeaderError::SDTHeaderNotFoundError)
            }
        }
    }

    /// Reads the header at the start of `bytes`.
    pub fn from_bytes(bytes: &[u8]) -> (r: SDTHeader)
        requires
            bytes@.len() >= SDT_HEADER_SIZE,
        ensures
            r == Self::spec_from(bytes@),
    {
        SDTHeader {
            signature: [bytes[0], bytes[1], bytes[2], bytes[3]],
            length: read_u32(bytes, 4),
            revision: bytes[8],
            checksum: bytes[9],
            oemid: [bytes[10], bytes[11], bytes[12], bytes[13], bytes[14], bytes[15]],
            oem_table_id: [
                bytes[16],
                bytes[17],
                bytes[18],
                bytes[19],
                bytes[20],
                bytes[21],
                bytes[22],
                bytes[23],
            ],
            oem_revision: read_u32(bytes, 24),
            creator_id: read_u32(bytes, 28),
            creator_revision: read_u32(bytes, 32),
        }
    }

    pub fn valid_signature(&self, sdt_signature: &SDTSignature) -> (r: bool)
        ensures
            r == (self.signature@ == sdt_signature.inner@),
    {
        let r = self.signature[0] == sdt_signature.inner[0] && self.signature[1]
            == sdt_signature.inner[1] && self.signature[2] == sdt_signature.inner[2]
            && self.signature[3] == sdt_signature.inner[3];
        proof {
            if r {
                assert(self.signature@ =~= sdt_signature.inner@);
            }
        }
        r
    }

    /// Checks the table in `bytes` against `sdt_signature` and its checksum:
    /// the header when both hold, else which of them failed.
    pub fn try_read(bytes: &[u8], sdt_signature: &SDTSignature) -> (r: Result<SDTHeader, SDTHeaderError>)
        ensures
            r == Self::spec_try_read(bytes@, sdt_signature.inner@),
    {
        if bytes.len() < SDT_HEADER_SIZE {
            return Err(SDTHeaderError::SDTHeaderNotFoundError);
        }
        let sdt_header = SDTHeader::from_bytes(bytes);
        let signature_ok = sdt_header.valid_signature(sdt_signature);
        let checksum_ok = valid_checksum(bytes);
        if signature_ok && checksum_ok {
            Ok(sdt_header)
        } else if checksum_ok {
            Err(SDTHeaderError::SDTSignatureValidationError)
        } else if signature_ok {
            Err(SDTHeaderError::SDTChecksumValidationError)
        } else {
            Err(SDTHeaderError::SDTHeaderNotFoundError)
        }
    }
}

/// The extended root system description pointer.
#[derive(Debug, Clone, Copy)]
pub struct XSDP {
    pub signature: [u8; 8],
    pub checksum: u8,
    pub oemid: [u8; 6],
    pub revision: u8,
    pub rsdt_address: u32,
    pub length: u32,
    pub xsdt_address: u64,
    pub extended_checksum: u8,
    pub reserved: [u8; 3],
}

#[derive(Debug, Clone, Copy, PartialEq, Eq, Structural)]
pub enum XSDPError {
    XSDReadError,
}

/// "RSD PTR "
pub open spec fn xsdp_signature() -> Seq<u8> {
    seq![0x52u8, 0x53, 0x44, 0x20, 0x50, 0x54, 0x52, 0x20]
}

impl XSDP {
    pub open spec fn spec_from(b: Seq<u8>) -> XSDP {
        XSDP {
            signature: [b[0], b[1], b[2], b[3], b[4], b[5], b[6], b[7]],
            checksum: b[8],
            oemid: [b[9], b[10], b[11], b[12], b[13], b[14]],
            revision: b[15],
            rsdt_address: le32(b, 16) as u32,
            length: le32(b, 20) as u32,
            xsdt_address: le64(b, 24) as u64,
            extended_checksum: b[32],
            reserved: [b[33], b[34], b[35]],
        }
    }

    pub fn valid_signature(&self) -> (r: bool)
        ensures
            r == (self.signature@ == xsdp_signature()),
    {
        let expected: [u8; 8] = [0x52, 0x53, 0x44, 0x20, 0x50, 0x54, 0x52, 0x20];
        assert(expected@ =~= xsdp_signature());
        let mut i: usize = 0;
        while i < 8
            invariant
                0 <= i <= 8,
                expected@ == xsdp_signature(),
                forall|j: int| 0 <= j < i ==> self.signature@[j] == expected@[j],
            decreases 8 - i,
        {
            if self.signature[i] != expected[i] {
                return false;
            }
            i = i + 1;
        }
        assert(self.signature@ =~= expected@);
        true
    }

    /// Whether the extended checksum byte is zero.
    pub fn valid_extended_checksum(&self) -> (r: bool)
        ensures
            r == (self.extended_checksum == 0),
    {
        proof {
            let c = self.extended_checksum;
            assert((c & 0xFFu8) == c) by (bit_vector);
        }
        (self.extended_checksum & 0xFF) == 0
    }

    /// The root pointer in `bytes`, when they are long enough and carry its
    /// signature.
    pub fn try_read(bytes: &[u8]) -> (r: Result<XSDP, XSDPError>)
        ensures
            bytes@.len() >= XSDP_SIZE && Self::spec_from(bytes@).signature@ == xsdp_signature()
                ==> r == Ok::<XSDP, XSDPError>(Self::spec_from(bytes@)),
            !(bytes@.len() >= XSDP_SIZE && Self::spec_from(bytes@).signature@ == xsdp_signature())
                ==> r == Err::<XSDP, XSDPError>(XSDPError::XSDReadError),
    {
        if bytes.len() < XSDP_SIZE {
            return Err(XSDPError::XSDReadError);
        }
        let xsdp = XSDP {
            signature: [bytes[0], bytes[1], bytes[2], bytes[3], bytes[4], bytes[5], bytes[6], bytes[7]],
            checksum: bytes[8],
            oemid: [bytes[9], bytes[10], bytes[11], bytes[12], bytes[13], bytes[14]],
            revision: bytes[15],
            rsdt_address: read_u32(bytes, 16),
            length: read_u32(bytes, 20),
            xsdt_address: read_u64(bytes, 24),
            extended_checksum: bytes[32],
            reserved: [bytes[33], bytes[34], bytes[35]],
        };
        if xsdp.valid_signature() {
            Ok(xsdp)
        } else {
            Err(XSDPError::XSDReadError)
        }
    }
}

/// The fixed ACPI description table; only its header is read.
#[derive(Debug, Clone, Copy)]
pub struct FADT {
    pub header: SDTHeader,
}

/// Entry `k` is the eight bytes after the header and `k` entries before it.
pub open spec fn entries_match(entries: Seq<u64>, b: Seq<u8>) -> bool {
    forall|k: int|
        0 <= k < entries.len() ==> #[trigger] entries[k] == le64(b, SDT_HEADER_SIZE + 8 * k)
            && SDT_HEADER_SIZE + 8 * k + 8 <= b.len()
}

/// The extended root table: a header and the physical addresses of the
/// other tables.
#[derive(Debug, Clone)]
pub struct XSDT {
    pub header: SDTHeader,
    pub sdt_address_table: Vec<u64>,
}

impl XSDT {
    /// The root table in `bytes`, checked like any table; its entries are
    /// the eight-byte addresses after the header, as many as the header's
    /// length holds and the bytes reach.
    pub fn try_read(bytes: &[u8]) -> (r: Result<XSDT, SDTHeaderError>)
        ensures
            r matches Ok(t) ==> SDTHeader::spec_try_read(bytes@, seq![0x58u8, 0x53, 0x44, 0x54])
                == Ok::<SDTHeader, SDTHeaderError>(t.header),
            r matches Ok(t) ==> entries_match(t.sdt_address_table@, bytes@),
            r matches Err(e) ==> SDTHeader::spec_try_read(bytes@, seq![0x58u8, 0x53, 0x44, 0x54])
                == Err::<SDTHeader, SDTHeaderError>(e),
    {
        let signature = SDTSignature::xsdt();
        assert(signature.inner@ =~= seq![0x58u8, 0x53, 0x44, 0x54]);
        let header = match SDTHeader::try_read(bytes, &signature) {
            Ok(h) => h,
            Err(e) => return Err(e),
        };
        assert(SDTHeader::spec_try_read(bytes@, seq![0x58u8, 0x53, 0x44, 0x54]) == Ok::<
            SDTHeader,
            SDTHeaderError,
        >(header));
        let end: usize = if (header.length as usize) < bytes.len() {
            header.length as usize
        } else {
            bytes.len()
        };
        let mut sdt_address_table: Vec<u64> = Vec::new();
        let mut offset: usize = SDT_HEADER_SIZE;
        while offset < end && end - offset >= 8
            invariant
                end <= bytes@.len(),
                SDT_HEADER_SIZE <= offset,
                offset == SDT_HEADER_SIZE + 8 * sdt_address_table@.len(),
                entries_match(sdt_address_table@, bytes@),
            decreases end - offset,
        {
            let entry = read_u64(bytes, offset);
            let ghost before = sdt_address_table@;
            sdt_address_table.push(entry);
            assert forall|k: int| 0 <= k < sdt_address_table@.len() implies #[trigger] sdt_address_table@[k]
                == le64(bytes@, SDT_HEADER_SIZE + 8 * k) && SDT_HEADER_SIZE + 8 * k + 8 <= bytes@.len() by {
                if k < before.len() {
                    assert(sdt_address_table@[k] == before[k]);
                }
            }
            offset = offset + 8;
        }
        let xsdt = XSDT { header, sdt_address_table };
        assert(entries_match(xsdt.sdt_address_table@, bytes@));
        Ok(xsdt)
    }
}

} // verus!
