//! What the processor reports of itself through `cpuid`.
use vstd::prelude::*;

verus! {

pub enum CpuVendor {
    Intel,
    Amd,
}

/// Whether `a` and `b` hold the same bytes.
pub fn bytes_equal(a: &[u8], b: &[u8]) -> (r: bool)
    ensures
        r == (a@ == b@),
{
    if a.len() != b.len() {
        return false;
    }
    let mut i: usize = 0;
    while i < a.len()
        invariant
            a@.len() == b@.len(),
            0 <= i <= a@.len(),
            forall|j: int| 0 <= j < i ==> a@[j] == b@[j],
        decreases a@.len() - i,
    {
        if a[i] != b[i] {
            return false;
        }
        i = i + 1;
    }
    assert(a@ =~= b@);
    true
}

/// The vendor identification string of Intel processors.
pub open spec fn intel_vendor_id() -> Seq<u8> {
    seq![0x47, 0x65, 0x6E, 0x75, 0x69, 0x6E, 0x65, 0x49, 0x6E, 0x74, 0x65, 0x6C]
}

/// The vendor identification string of AMD processors.
pub open spec fn amd_vendor_id() -> Seq<u8> {
    seq![0x41, 0x75, 0x74, 0x68, 0x65, 0x6E, 0x74, 0x69, 0x63, 0x41, 0x4D, 0x44]
}

impl CpuVendor {
    pub fn to_str(&self) -> (r: &'static str)
        ensures
            (*self is Intel) ==> r@ == "Intel"@,
            (*self is Amd) ==> r@ == "AMD"@,
    {
        proof {
            reveal_strlit("Intel");
            reveal_strlit("AMD");
        }
        match self {
            CpuVendor::Intel => "Intel",
            CpuVendor::Amd => "AMD",
        }
    }

    /// The vendor named by the twelve-byte identification string, if it is
    /// one the kernel supports.
    pub fn from_vendor_id(vendor_id: &[u8]) -> (r: Option<CpuVendor>)
        ensures
            vendor_id@ == intel_vendor_id() ==> r matches Some(CpuVendor::Intel),
            vendor_id@ == amd_vendor_id() ==> r matches Some(CpuVendor::Amd),
            vendor_id@ != intel_vendor_id() && vendor_id@ != amd_vendor_id() ==> r.is_none(),
    {
        let intel: [u8; 12] = [0x47, 0x65, 0x6E, 0x75, 0x69, 0x6E, 0x65, 0x49, 0x6E, 0x74, 0x65, 0x6C];
        let amd: [u8; 12] = [0x41, 0x75, 0x74, 0x68, 0x65, 0x6E, 0x74, 0x69, 0x63, 0x41, 0x4D, 0x44];
        assert(intel@ =~= intel_vendor_id());
        assert(amd@ =~= amd_vendor_id());
        if bytes_equal(vendor_id, intel.as_slice()) {
            Some(CpuVendor::Intel)
        } else if bytes_equal(vendor_id, amd.as_slice()) {
            Some(CpuVendor::Amd)
        } else {
            None
        }
    }
}

/// The processor features the kernel looks at.
pub struct CPUInfo {
    pub cpu_vendor: Option<CpuVendor>,
    pub acpi_enabled: bool,
    pub msr_present: bool,
    pub sse3_enabled: bool,
    pub apic_enabled: bool,
    pub x2apic_enabled: bool,
    pub apic_id: Option<u8>,
}

impl CPUInfo {
    /// No vendor and no feature.
    pub fn new() -> (r: CPUInfo)
        ensures
            r.cpu_vendor.is_none(),
            !r.acpi_enabled && !r.msr_present && !r.sse3_enabled,
            !r.apic_enabled && !r.x2apic_enabled,
            r.apic_id.is_none(),
    {
        CPUInfo {
            cpu_vendor: None,
            acpi_enabled: false,
            msr_present: false,
            sse3_enabled: false,
            apic_enabled: false,
            x2apic_enabled: false,
            apic_id: None,
        }
    }

    /// The information from the vendor identification string and the
    /// feature bits; the initial APIC id counts only when an APIC is present.
    pub fn from_features(
        vendor_id: &[u8],
        acpi: bool,
        msr: bool,
        sse3: bool,
        apic: bool,
        x2apic: bool,
        initial_apic_id: u8,
    ) -> (r: CPUInfo)
        ensures
            vendor_id@ == intel_vendor_id() ==> r.cpu_vendor matches Some(CpuVendor::Intel),
            vendor_id@ == amd_vendor_id() ==> r.cpu_vendor matches Some(CpuVendor::Amd),
            vendor_id@ != intel_vendor_id() && vendor_id@ != amd_vendor_id() ==> r.cpu_vendor.is_none(),
            r.acpi_enabled == acpi && r.msr_present == msr && r.sse3_enabled == sse3,
            r.apic_enabled == apic && r.x2apic_enabled == x2apic,
            r.apic_id == (if apic {
                Some(initial_apic_id)
            } else {
                None
            }),
    {
        let mut cpu_info = CPUInfo::new();
        cpu_info.cpu_vendor = CpuVendor::from_vendor_id(vendor_id);
        cpu_info.acpi_enabled = acpi;
        cpu_info.msr_present = msr;
        cpu_info.sse3_enabled = sse3;
        cpu_info.apic_enabled = apic;
        cpu_info.x2apic_enabled = x2apic;
        if apic {
            cpu_info.apic_id = Some(initial_apic_id);
        }
        cpu_info
    }
}

} // verus!
