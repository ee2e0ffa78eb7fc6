//! Bring-up data for application processors.
//!
//! The real-mode trampoline blob is copied to a fixed low address; directly
//! above it lives a descriptor record the blob reads: the stack top for the
//! processor being started, the entry function, the page table root and the
//! GDT location. The record's contents are computed here; the copy to low
//! memory and the INIT/STARTUP interrupts are hardware work outside the
//! verified core.

use vstd::prelude::*;
use crate::memory::{AP_STACK_MEMORY_START, PER_AP_STACK_STACK_SIZE};

verus! {

/// Physical address the trampoline blob is copied to; the STARTUP vector
/// points here.
pub const TRAMPOLINE_ADDR: u64 = 0x8000;

/// Physical address of the shared descriptor record, directly above the
/// trampoline.
pub const TRAMPOLINE_DATA_ADDR: u64 = 0x9000;

/// The descriptor the trampoline reads while one application processor is
/// brought up.
#[derive(Clone, Copy, Debug, PartialEq, Eq, Structural)]
pub struct TrampolineData {
    pub ap_stack_ptr: u64,
    pub ap_entry_point_address: u64,
    pub level_4_table_phys_address: u64,
    pub gdt_start_address: u64,
    pub gdt_size: u16,
}

/// Top-of-stack address for the processor with the given id: each processor
/// owns one stack-sized slot above the stack area's base.
pub fn stack_ptr(cpu_id: u8) -> (r: u64)
    ensures
        r == AP_STACK_MEMORY_START + PER_AP_STACK_STACK_SIZE * cpu_id,
{
    AP_STACK_MEMORY_START + PER_AP_STACK_STACK_SIZE * cpu_id as u64
}

/// The descriptor for one application processor: its own stack top, the
/// shared entry function, page table root and GDT.
pub fn setup_trampoline_data(
    ap_id: u8,
    ap_entry_point_address: u64,
    level_4_table_phys_address: u64,
    gdt_base_phys_address: u64,
    gdt_size: usize,
) -> (r: TrampolineData)
    requires
        gdt_size <= u16::MAX,
    ensures
        r.ap_stack_ptr == AP_STACK_MEMORY_START + PER_AP_STACK_STACK_SIZE * ap_id,
        r.ap_entry_point_address == ap_entry_point_address,
        r.level_4_table_phys_address == level_4_table_phys_address,
        r.gdt_start_address == gdt_base_phys_address,
        r.gdt_size == gdt_size,
{
    TrampolineData {
        ap_stack_ptr: stack_ptr(ap_id),
        ap_entry_point_address,
        level_4_table_phys_address,
        gdt_start_address: gdt_base_phys_address,
        gdt_size: gdt_size as u16,
    }
}

} // verus!
