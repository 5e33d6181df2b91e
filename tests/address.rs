use runix::address::{PhysicalAddress, VirtualAddress, KERNEL_BASE_ADDRESS};

#[test]
fn virtual_address_round_trip() {
    for raw in [0u64, 0x1000, 0x0000_7FFF_FFFF_FFFF, 0xFFFF_8000_0000_0000, KERNEL_BASE_ADDRESS, u64::MAX] {
        assert_eq!(VirtualAddress::new(raw).unwrap().raw(), raw);
    }
}

#[test]
fn non_canonical_virtual_address_is_rejected() {
    for raw in [0x0000_8000_0000_0000u64, 0x0001_0000_0000_0000, 0xFFFF_7FFF_FFFF_FFFF, 0x1234_5678_0000_0000] {
        let err = VirtualAddress::new(raw).unwrap_err();
        assert_eq!(err.inner, raw);
    }
}

#[test]
fn physical_address_round_trip() {
    for raw in [0u64, 0x1000, 0x000F_FFFF_FFFF_FFFF] {
        assert_eq!(PhysicalAddress::new(raw).unwrap().raw(), raw);
    }
}

#[test]
fn wide_physical_address_is_rejected() {
    for raw in [0x0010_0000_0000_0000u64, u64::MAX, 0x8000_0000_0000_0000] {
        assert_eq!(PhysicalAddress::new(raw).unwrap_err().inner, raw);
    }
}

#[test]
fn alignment_rounds_to_multiples() {
    let a = VirtualAddress::new(0x1234).unwrap();
    assert_eq!(a.align_down(0x1000).raw(), 0x1000);
    assert_eq!(a.align_up(0x1000).raw(), 0x2000);
    assert_eq!(a.align_down(8).raw(), 0x1230);
    assert_eq!(a.align_up(8).raw(), 0x1238);
    let b = VirtualAddress::new(0x2000).unwrap();
    assert_eq!(b.align_up(0x1000).raw(), 0x2000);
    assert_eq!(b.align_down(0x1000).raw(), 0x2000);
    let p = PhysicalAddress::new(0x1_2345).unwrap();
    assert_eq!(p.align_down(0x1000).raw(), 0x1_2000);
    assert_eq!(p.align_up(0x1000).raw(), 0x1_3000);
}

#[test]
fn table_indices_are_nine_bit_fields() {
    let raw = 0xFFFF_8880_DEAD_BEEFu64;
    let a = VirtualAddress::new(raw).unwrap();
    assert_eq!(a.get_page_offset(), 0xEEF);
    assert_eq!(a.get_pt_index(), ((raw >> 12) & 0x1FF) as usize);
    assert_eq!(a.get_pd_index(), ((raw >> 21) & 0x1FF) as usize);
    assert_eq!(a.get_pdpt_index(), ((raw >> 30) & 0x1FF) as usize);
    assert_eq!(a.get_pml4_index(), ((raw >> 39) & 0x1FF) as usize);
    assert_eq!(a.get_pml4_index(), 0x111);
    assert_eq!(a.get_pt_index(), 0xDB);
}

#[test]
fn aligning_to_a_level_keeps_its_index() {
    let a = VirtualAddress::new(0xFFFF_8880_DEAD_BEEF).unwrap();
    assert_eq!(a.align_down(0x1000).get_pt_index(), a.get_pt_index());
    assert_eq!(a.align_down(0x20_0000).get_pd_index(), a.get_pd_index());
    assert_eq!(a.align_down(0x4000_0000).get_pdpt_index(), a.get_pdpt_index());
    assert_eq!(a.align_down(0x80_0000_0000).get_pml4_index(), a.get_pml4_index());
    assert_eq!(a.align_down(0x20_0000).get_pt_index(), 0);
}

#[test]
fn offsets_and_kernel_base() {
    assert_eq!(VirtualAddress::kernel_base().raw(), 0xFFFF_8880_0000_0000);
    assert_eq!(VirtualAddress::with_kernel_base_offset(0x1000).raw(), 0xFFFF_8880_0000_1000);
    assert_eq!(VirtualAddress::with_offset(0x1000, 0x234).raw(), 0x1234);
    let a = VirtualAddress::new(0x1000).unwrap();
    assert_eq!(a.add_checked(0x10).raw(), 0x1010);
    assert!(a.is_aligned());
    assert!(!a.add_checked(1).is_aligned());
    assert_eq!(VirtualAddress::zero().raw(), 0);
    assert_eq!(PhysicalAddress::zero().raw(), 0);
}
