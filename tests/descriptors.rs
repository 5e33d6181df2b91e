use runix::address::VirtualAddress;
use runix::bits::{is_bit_set, set_bit};
use runix::interrupts::{GateDescriptor, GateOptions, InterruptDescriptorTable};
use runix::segmentation::{
    GDTWithSegmentSelectors, GlobalDescriptorTable, SegmentDescriptor, SegmentSelector, TaskStateSegment,
};

#[test]
fn bits_are_tested_and_set() {
    assert!(is_bit_set(0b1010, 0b1000));
    assert!(!is_bit_set(0b1010, 0b0100));
    assert!(!is_bit_set(0b1010, 0b1100));
    assert_eq!(set_bit(0b1010, 0b0100), 0b1110);
}

#[test]
fn selectors_hold_index_and_privilege() {
    assert_eq!(SegmentSelector::new(1, 0).inner, 8);
    assert_eq!(SegmentSelector::new(3, 3).inner, 27);
    let gdt = GDTWithSegmentSelectors::new(0xFFFF_8000_1234_5678);
    assert_eq!(gdt.selectors.kernel_code_selector.inner, 8);
    assert_eq!(gdt.selectors.kernel_data_selector.inner, 16);
    assert_eq!(gdt.selectors.user_code_selector.inner, 27);
    assert_eq!(gdt.selectors.user_data_selector.inner, 35);
    assert_eq!(gdt.selectors.tss_selector.inner, 40);
    let pointer = gdt.table_pointer(VirtualAddress::new(0x1000).unwrap());
    assert_eq!(pointer.limit, 55);
}

#[test]
fn tss_descriptor_splits_the_address() {
    let (low, high) = SegmentDescriptor::tss_system_segment(0xFFFF_8000_1234_5678);
    assert_eq!(low.limit_low, 103);
    assert_eq!(low.base_low, 0x5678);
    assert_eq!(low.base_middle, 0x34);
    assert_eq!(low.base_high, 0x12);
    assert_eq!(low.access, 0xE9);
    assert_eq!(high.limit_low, 0x8000);
    assert_eq!(high.base_low, 0xFFFF);
}

#[test]
fn gdt_entries_and_privilege_bits() {
    let mut gdt = GlobalDescriptorTable::new();
    assert_eq!(gdt.get_entry(0).inner, 0);
    let s = gdt.set_entry(3, SegmentDescriptor::user_code_segment_descriptor(), 3);
    assert_eq!(s.inner, 27);
    assert_eq!(SegmentDescriptor::user_code_segment_descriptor().get_requested_privilege_level(), 0x60);
    assert_eq!(SegmentDescriptor::kernel_code_segment_descriptor().access, 0x9A);
    assert_eq!(SegmentDescriptor::kernel_data_segment_descriptor().access, 0x92);
    assert_eq!(SegmentDescriptor::user_data_segment_descriptor().access, 0xF2);
    assert_eq!(SegmentDescriptor::null_segment_descriptor().limit_low, 0);
    assert_eq!(gdt.get_entry(3).inner, (3 << 3) | 0x60);
}

#[test]
fn stack_tables_point_past_the_stack() {
    let mut tss = TaskStateSegment::new();
    tss.init_interrupt_stack_table(1, 0x10_0000);
    assert_eq!(tss.interrupt_stack(1).raw(), 0x10_5000);
    assert_eq!(tss.interrupt_stack(0).raw(), 0);
    tss.init_priviledge_stack_table(0, 0x20_0000);
    assert_eq!(tss.interrupt_stack(1).raw(), 0x10_5000);
}

#[test]
fn gate_options_bits() {
    assert_eq!(GateOptions::minimal().bits(), 0x0E00);
    assert_eq!(GateOptions::exception_gate_options().bits(), 0x8E00);
    assert_eq!(GateOptions::trap_gate_options().bits(), 0x8F00);
    assert_eq!(GateOptions::minimal().dpl_3().bits(), 0x6E00);
    assert_eq!(GateOptions::minimal().dpl_3().dpl_0().bits(), 0x0E00);
    assert_eq!(GateOptions::exception_gate_options().set_stack_index(1).bits(), 0x8E02);
}

#[test]
fn gates_and_table_pointer() {
    let mut gate = GateDescriptor::new(GateOptions::exception_gate_options());
    gate.set_handler_address(VirtualAddress::new(0xFFFF_8000_0010_2030).unwrap(), SegmentSelector::new(1, 0));
    let idt = InterruptDescriptorTable::new();
    assert_eq!(idt.descriptor_table.len(), 256);
    assert_eq!(idt.pointer(VirtualAddress::new(0x2000).unwrap()).limit, 4095);
}
