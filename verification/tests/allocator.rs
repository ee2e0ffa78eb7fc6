//! Exercises the buddy allocator: size classing, split and coalesce
//! behaviour, alignment, non-overlap, and full round trips.

use kernel_core::buddy::{
    allocator_tests, free_list_index, get_clamped_size_from_layout, BuddyAllocator, LIST_SIZE,
    MIN_SIZE, ReallyBigTestStruct,
};

const TOP_BLOCK: usize = 1 << 18;

fn armed(heap_size: usize) -> BuddyAllocator {
    let mut a = BuddyAllocator::new();
    a.init(0, heap_size);
    a
}

#[test]
fn clamp_rounds_to_power_of_two() {
    assert_eq!(get_clamped_size_from_layout(0), MIN_SIZE);
    assert_eq!(get_clamped_size_from_layout(1), MIN_SIZE);
    assert_eq!(get_clamped_size_from_layout(32), 32);
    assert_eq!(get_clamped_size_from_layout(33), 64);
    assert_eq!(get_clamped_size_from_layout(64), 64);
    assert_eq!(get_clamped_size_from_layout(200), 256);
    assert_eq!(get_clamped_size_from_layout(1 << 18), 1 << 18);
}

#[test]
fn order_index_of_each_class() {
    assert_eq!(free_list_index(32), 0);
    assert_eq!(free_list_index(64), 1);
    assert_eq!(free_list_index(256), 3);
    assert_eq!(free_list_index(1 << 18), LIST_SIZE - 1);
}

#[test]
fn init_carves_top_blocks_oldest_last() {
    let a = armed(1 << 19);
    assert_eq!(a.free_list[LIST_SIZE - 1].len(), 2);
    assert_eq!(a.free_list[LIST_SIZE - 1][0].start_addr, 0);
    assert_eq!(a.free_list[LIST_SIZE - 1][1].start_addr, TOP_BLOCK);
    for i in 0..LIST_SIZE - 1 {
        assert_eq!(a.free_list[i].len(), 0);
    }
}

#[test]
fn init_refuses_second_call() {
    let mut a = armed(1 << 19);
    a.init(0, 1 << 18);
    assert_eq!(a.heap_size, 1 << 19);
    assert_eq!(a.free_list[LIST_SIZE - 1].len(), 2);
}

#[test]
fn allocation_is_aligned_to_its_class() {
    let mut a = armed(1 << 19);
    let p1 = a.allocate(64).unwrap();
    let p2 = a.allocate(200).unwrap();
    let p3 = a.allocate(1).unwrap();
    assert_eq!(p1 % 64, 0);
    assert_eq!(p2 % 256, 0);
    assert_eq!(p3 % 32, 0);
}

#[test]
fn allocations_do_not_overlap() {
    let mut a = armed(1 << 19);
    let mut blocks: Vec<(usize, usize)> = Vec::new();
    for &size in &[64usize, 200, 32, 4096, 64, 1000, 32] {
        let clamped = get_clamped_size_from_layout(size);
        let addr = a.allocate(size).unwrap();
        blocks.push((addr, clamped));
    }
    for (i, &(a1, s1)) in blocks.iter().enumerate() {
        assert!(a1 + s1 <= 1 << 19);
        for &(a2, s2) in blocks.iter().skip(i + 1) {
            assert!(a1 + s1 <= a2 || a2 + s2 <= a1, "blocks overlap");
        }
    }
}

#[test]
fn allocate_picks_lifo_head() {
    let mut a = armed(1 << 19);
    // The head of the top list is the last block carved.
    let p = a.allocate(1 << 18).unwrap();
    assert_eq!(p, TOP_BLOCK);
    let q = a.allocate(1 << 18).unwrap();
    assert_eq!(q, 0);
    assert!(a.allocate(32).is_none());
}

#[test]
fn roundtrip_restores_top_free_list() {
    // Allocate one hundred 64-byte blocks, free them in reverse order:
    // everything coalesces back into the two top-order blocks.
    let mut a = armed(1 << 19);
    let mut blocks = Vec::new();
    for _ in 0..100 {
        blocks.push(a.allocate(64).unwrap());
    }
    for addr in blocks.into_iter().rev() {
        a.deallocate(addr, 64);
    }
    assert_eq!(a.free_list[LIST_SIZE - 1].len(), 2);
    for i in 0..LIST_SIZE - 1 {
        assert_eq!(a.free_list[i].len(), 0, "list {i} should have coalesced away");
    }
}

#[test]
fn split_then_coalesce_releases_whole_block() {
    // One 256-byte request splits a top block; freeing it must coalesce far
    // enough that a whole top-order block can be served again.
    let mut a = armed(TOP_BLOCK);
    let p = a.allocate(256).unwrap();
    a.deallocate(p, 256);
    let q = a.allocate(TOP_BLOCK);
    assert!(q.is_some());
}

#[test]
fn exhaustion_returns_none_and_free_recovers() {
    let mut a = armed(TOP_BLOCK);
    let p = a.allocate(TOP_BLOCK).unwrap();
    assert!(a.allocate(32).is_none());
    a.deallocate(p, TOP_BLOCK);
    assert!(a.allocate(32).is_some());
}

#[test]
fn free_lists_stay_size_aligned() {
    // Buddy locality: every free block starts at an address divisible by
    // its size, at every step of a mixed workload.
    let mut a = armed(1 << 19);
    let p1 = a.allocate(64).unwrap();
    let p2 = a.allocate(512).unwrap();
    a.deallocate(p1, 64);
    let p3 = a.allocate(128).unwrap();
    a.deallocate(p2, 512);
    a.deallocate(p3, 128);
    for (i, list) in a.free_list.iter().enumerate() {
        let size = 1usize << (i + 5);
        for node in list.iter() {
            assert_eq!(node.size, size);
            assert_eq!(node.start_addr % size, 0, "free block misaligned");
        }
    }
}

#[test]
fn allocate_then_deallocate_preserves_free_memory() {
    let mut a = armed(1 << 19);
    let before: usize = a.free_list.iter().enumerate().map(|(i, l)| l.len() << (i + 5)).sum();
    let r = a.allocate_then_deallocate(777);
    assert!(r.is_some());
    let after: usize = a.free_list.iter().enumerate().map(|(i, l)| l.len() << (i + 5)).sum();
    assert_eq!(before, after);
}

#[test]
fn no_two_free_buddies_below_top_order() {
    // Eager coalescing: after a mixed workload, no list below the top order
    // holds both halves of one larger block.
    let mut a = armed(1 << 19);
    let mut held = Vec::new();
    for &size in &[32usize, 32, 64, 128, 32, 256, 64] {
        held.push((a.allocate(size).unwrap(), size));
    }
    for &(addr, size) in held.iter().rev() {
        a.deallocate(addr, size);
    }
    for (i, list) in a.free_list.iter().enumerate().take(kernel_core::buddy::LIST_SIZE - 1) {
        let size = 1usize << (i + 5);
        for n1 in list.iter() {
            for n2 in list.iter() {
                if n1.start_addr != n2.start_addr {
                    assert_ne!(n1.start_addr ^ size, n2.start_addr, "free buddies left uncoalesced");
                }
            }
        }
    }
}

#[test]
fn allocator_smoke_workload_runs() {
    allocator_tests();
}

#[test]
fn big_test_record_is_fully_populated() {
    let s = ReallyBigTestStruct::new();
    assert_eq!(s.array.len(), 20);
    assert_eq!(s.vec.len(), 100);
    assert_eq!(s.array2.len(), 100);
    assert_eq!(s.array3.len(), 30);
    assert!(!s.test.is_empty());
    assert!(!s.test_1.is_empty());
}
