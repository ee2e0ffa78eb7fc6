//! Exercises the fixed memory layout and the application-processor
//! bring-up data.

use kernel_core::memory::{
    page_range,
    ACPI_MEMORY_SIZE, ACPI_START_ADDRESS, AP_STACK_MEMORY_START, HEAP_SIZE, HEAP_START,
    PER_AP_STACK_STACK_SIZE,
};
use kernel_core::trampoline::{
    setup_trampoline_data, stack_ptr, TRAMPOLINE_ADDR, TRAMPOLINE_DATA_ADDR,
};

#[test]
fn memory_windows_are_stacked_without_overlap() {
    assert_eq!(HEAP_START, 0x4444_4444_0000);
    assert_eq!(HEAP_SIZE, 10_240_000);
    assert_eq!(ACPI_START_ADDRESS, HEAP_START + HEAP_SIZE + 1);
    assert_eq!(AP_STACK_MEMORY_START, ACPI_START_ADDRESS + ACPI_MEMORY_SIZE);
    assert!(TRAMPOLINE_ADDR < TRAMPOLINE_DATA_ADDR);
    assert!(TRAMPOLINE_DATA_ADDR < HEAP_START);
}

#[test]
fn heap_start_is_top_block_aligned() {
    assert_eq!(HEAP_START % (1 << 18), 0);
}

#[test]
fn each_processor_gets_its_own_stack_slot() {
    let mut tops = Vec::new();
    for id in 1..=4u8 {
        let top = stack_ptr(id);
        assert_eq!(top, AP_STACK_MEMORY_START + PER_AP_STACK_STACK_SIZE * id as u64);
        assert!(!tops.contains(&top));
        tops.push(top);
    }
}

#[test]
fn trampoline_descriptor_carries_the_boot_state() {
    let data = setup_trampoline_data(2, 0xAAAA, 0x1000, 0x2000, 64);
    assert_eq!(data.ap_stack_ptr, stack_ptr(2));
    assert_eq!(data.ap_entry_point_address, 0xAAAA);
    assert_eq!(data.level_4_table_phys_address, 0x1000);
    assert_eq!(data.gdt_start_address, 0x2000);
    assert_eq!(data.gdt_size, 64);
}

#[test]
fn page_range_covers_the_byte_range() {
    assert_eq!(page_range(0x1000, 0x1000), (0x1000, 1));
    assert_eq!(page_range(0x1000, 0x1001), (0x1000, 2));
    assert_eq!(page_range(0x1FFF, 2), (0x1000, 2));
    assert_eq!(page_range(HEAP_START, HEAP_SIZE), (HEAP_START, (HEAP_SIZE + 4095) / 4096));
    assert_eq!(page_range(0x8000, 0x1000 + 1), (0x8000, 2));
}
