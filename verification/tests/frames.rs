//! Exercises the frame source: expansion of the memory map, cursor
//! behaviour, and frame uniqueness.

use kernel_core::memory::{acpi_map_step, plan_mappings, MemRegion, StaticFrameAllocator};

fn region(start: u64, end: u64, usable: bool) -> MemRegion {
    MemRegion { start, end, usable }
}

#[test]
fn frames_walk_usable_regions_in_order() {
    let mut src = StaticFrameAllocator::new(vec![
        region(0x1000, 0x3000, true),
        region(0x3000, 0x8000, false),
        region(0x10000, 0x12000, true),
    ]);
    assert_eq!(src.allocate_frame(), Some(0x1000));
    assert_eq!(src.allocate_frame(), Some(0x2000));
    assert_eq!(src.allocate_frame(), Some(0x10000));
    assert_eq!(src.allocate_frame(), Some(0x11000));
    assert_eq!(src.allocate_frame(), None);
}

#[test]
fn successive_frames_are_distinct() {
    let mut src = StaticFrameAllocator::new(vec![
        region(0x4000, 0x9000, true),
        region(0x20000, 0x24000, true),
    ]);
    let mut seen = Vec::new();
    while let Some(f) = src.allocate_frame() {
        assert!(!seen.contains(&f), "frame {f:#x} repeated");
        seen.push(f);
    }
    assert_eq!(seen.len(), 9);
}

#[test]
fn cursor_advances_past_exhaustion() {
    let mut src = StaticFrameAllocator::new(vec![region(0x1000, 0x2000, true)]);
    assert_eq!(src.allocate_frame(), Some(0x1000));
    assert_eq!(src.allocate_frame(), None);
    assert_eq!(src.allocate_frame(), None);
    assert_eq!(src.next, 3);
}

#[test]
fn unaligned_region_rounds_down_to_frame_boundaries() {
    let mut src = StaticFrameAllocator::new(vec![region(0x1800, 0x3800, true)]);
    assert_eq!(src.allocate_frame(), Some(0x1000));
    assert_eq!(src.allocate_frame(), Some(0x2000));
    assert_eq!(src.allocate_frame(), None);
}

#[test]
fn unusable_map_yields_no_frames() {
    let mut src = StaticFrameAllocator::new(vec![
        region(0x1000, 0x4000, false),
        region(0x8000, 0x8000, true),
    ]);
    assert_eq!(src.allocate_frame(), None);
}

#[test]
fn mapping_plan_pairs_pages_with_fresh_frames() {
    let mut src = StaticFrameAllocator::new(vec![region(0x10000, 0x14000, true)]);
    let plan = plan_mappings(&mut src, 0x8000, 0x1001).unwrap();
    assert_eq!(plan, vec![(0x8000, 0x10000), (0x9000, 0x11000)]);
    assert_eq!(src.next, 2);
    // two frames remain; a three-page range cannot be served
    assert!(plan_mappings(&mut src, 0x20000, 3 * 0x1000).is_err());
}

#[test]
fn acpi_pool_pages_are_paired_in_order() {
    let pool = crossbeam_queue::ArrayQueue::new(2);
    pool.push(0x99C4_0000u64).unwrap();
    pool.push(0x99C4_1000u64).unwrap();
    let mut pool = pool;
    assert_eq!(acpi_map_step(&mut pool, 0x7FE1_5432), Some((0x99C4_0000, 0x7FE1_5000)));
    assert_eq!(acpi_map_step(&mut pool, 0x7FE1_8000), Some((0x99C4_1000, 0x7FE1_8000)));
    assert_eq!(acpi_map_step(&mut pool, 0x7FE1_9000), None, "pool exhausted");
}
