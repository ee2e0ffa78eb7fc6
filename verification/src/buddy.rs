//! Buddy heap allocator.
//!
//! The allocator serves requests of up to `2^18` bytes inside a fixed heap
//! window. Free blocks are kept in per-order free lists; the metadata for a
//! free block is an [`AllocatorNode`] held in a side table rather than inside
//! the block's own storage, so the structure can be reasoned about directly.
//!
//! The central invariant [`BuddyAllocator::inv`] states that every free block
//! and every currently allocated block is a power-of-two sized, size-aligned
//! range inside the heap window, that all these ranges are pairwise
//! disjoint, and that coalescing is eager: below the top order, no two free
//! blocks of one order are buddies of each other.

use vstd::prelude::*;
use vstd::arithmetic::power2::{pow2, lemma_pow2_adds, lemma_pow2_strictly_increases, lemma2_to64};
use vstd::bits::low_bits_mask;

verus! {

/// Index of the smallest buddy order: blocks are at least `2^5 = 32` bytes.
pub const MIN_ORDER_INCLUSIVE: usize = 5;

/// One past the largest buddy order: blocks are smaller than `2^19` bytes.
pub const MAX_ORDER_EXCLUSIVE: usize = 19;

/// Number of free lists kept by the buddy allocator.
pub const LIST_SIZE: usize = 14;

/// Smallest block size handed out by the allocator.
pub const MIN_SIZE: usize = 32;

/// Size in bytes of a block whose free list index is `idx`.
pub open spec fn block_size(idx: int) -> nat {
    pow2((idx + MIN_ORDER_INCLUSIVE) as nat)
}

/// Two byte ranges do not overlap.
pub open spec fn blocks_disjoint(a1: int, s1: int, a2: int, s2: int) -> bool {
    a1 + s1 <= a2 || a2 + s2 <= a1
}

/// Two addresses are buddies at block size `s`: adjacent blocks whose union
/// is one block of size `2 * s` aligned to its own size.
pub open spec fn are_buddies(a1: int, a2: int, s: int) -> bool {
    (a1 % (2 * s) == 0 && a2 == a1 + s) || (a2 % (2 * s) == 0 && a1 == a2 + s)
}

/// The most recently freed block of list `m` — its LIFO head — is a block
/// of order `m` whose range contains the whole range of the freed block
/// `(addr, k)`.
pub open spec fn landed_at(l: Seq<AllocatorNode>, m: int, addr: int, k: int) -> bool {
    &&& l.len() > 0
    &&& l.last().free_list_index == m
    &&& l.last().start_addr <= addr
    &&& addr + block_size(k) <= l.last().start_addr + block_size(m)
}

/// Metadata of one free block: its start address, its size, and the index of
/// the free list it sits on.
#[derive(Clone, Copy, Debug)]
pub struct AllocatorNode {
    pub start_addr: usize,
    pub size: usize,
    pub free_list_index: usize,
}

/// Buddy allocator state: one free list per order, the heap window, and a
/// ghost record of the currently allocated blocks as `(address, order index)`
/// pairs.
pub struct BuddyAllocator {
    pub free_list: Vec<Vec<AllocatorNode>>,
    pub heap_start: usize,
    pub heap_size: usize,
    pub initialized: bool,
    pub allocated: Ghost<Set<(usize, usize)>>,
}

/// Base-2 logarithm, rounded down; `spec_log2(0) == 0`.
pub open spec fn spec_log2(n: nat) -> nat
    decreases n,
{
    if n < 2 {
        0
    } else {
        1 + spec_log2(n / 2)
    }
}

/// The size class a request of `n` bytes is served from: the least power of
/// two that is at least `n`, and at least `MIN_SIZE`.
pub open spec fn spec_clamped_size(n: nat) -> nat {
    if n <= MIN_SIZE {
        MIN_SIZE as nat
    } else if pow2(spec_log2(n)) == n {
        n
    } else {
        pow2(spec_log2(n) + 1)
    }
}

/// Free list index that serves a request of `n` bytes.
pub open spec fn spec_order_index(n: nat) -> int {
    spec_log2(spec_clamped_size(n)) - MIN_ORDER_INCLUSIVE
}

/// Index of the lowest list in `k..lists.len()` that holds a block, or
/// `lists.len()` if they are all empty.
pub open spec fn lowest_nonempty(lists: Seq<Vec<AllocatorNode>>, k: int) -> int
    decreases lists.len() - k,
{
    if k < 0 || k >= lists.len() {
        lists.len() as int
    } else if lists[k]@.len() > 0 {
        k
    } else {
        lowest_nonempty(lists, k + 1)
    }
}

/// Total bytes held by the first `n` free lists.
pub open spec fn fb_rec(lists: Seq<Vec<AllocatorNode>>, n: int) -> int
    decreases n,
{
    if n <= 0 {
        0
    } else {
        fb_rec(lists, n - 1) + lists[n - 1]@.len() * block_size(n - 1)
    }
}

impl BuddyAllocator {
    /// A free block's metadata is consistent with the list it sits on and
    /// describes a size-aligned range inside the heap window.
    pub open spec fn node_wf(self, b: AllocatorNode, idx: int) -> bool {
        &&& b.free_list_index == idx
        &&& b.size as nat == block_size(idx)
        &&& b.start_addr as int % block_size(idx) as int == 0
        &&& self.heap_start <= b.start_addr
        &&& b.start_addr + b.size <= self.heap_start + self.heap_size
    }

    /// An allocated block `(address, order index)` is a size-aligned range
    /// inside the heap window.
    pub open spec fn alloc_entry_wf(self, p: (usize, usize)) -> bool {
        &&& p.1 < LIST_SIZE
        &&& p.0 as int % block_size(p.1 as int) as int == 0
        &&& self.heap_start <= p.0
        &&& p.0 + block_size(p.1 as int) <= self.heap_start + self.heap_size
    }

    pub open spec fn lists_wf(self) -> bool {
        forall|i: int, j: int|
            0 <= i < self.free_list@.len() && 0 <= j < self.free_list@[i]@.len() ==> self.node_wf(
                #[trigger] self.free_list@[i]@[j],
                i,
            )
    }

    /// Free blocks are pairwise disjoint.
    pub open spec fn free_free_disjoint(self) -> bool {
        forall|i1: int, j1: int, i2: int, j2: int|
            0 <= i1 < self.free_list@.len() && 0 <= j1 < self.free_list@[i1]@.len() && 0 <= i2
                < self.free_list@.len() && 0 <= j2 < self.free_list@[i2]@.len() && (i1 != i2 || j1
                != j2) ==> blocks_disjoint(
                (#[trigger] self.free_list@[i1]@[j1]).start_addr as int,
                block_size(i1) as int,
                (#[trigger] self.free_list@[i2]@[j2]).start_addr as int,
                block_size(i2) as int,
            )
    }

    /// No free block overlaps an allocated block.
    pub open spec fn free_alloc_disjoint(self) -> bool {
        forall|i: int, j: int, p: (usize, usize)|
            0 <= i < self.free_list@.len() && 0 <= j < self.free_list@[i]@.len() && (
            #[trigger] self.allocated@.contains(p)) ==> blocks_disjoint(
                (#[trigger] self.free_list@[i]@[j]).start_addr as int,
                block_size(i) as int,
                p.0 as int,
                block_size(p.1 as int) as int,
            )
    }

    /// Allocated blocks are pairwise disjoint.
    pub open spec fn alloc_alloc_disjoint(self) -> bool {
        forall|p1: (usize, usize), p2: (usize, usize)|
            #![trigger self.allocated@.contains(p1), self.allocated@.contains(p2)]
            self.allocated@.contains(p1) && self.allocated@.contains(p2) && p1 != p2
                ==> blocks_disjoint(
                p1.0 as int,
                block_size(p1.1 as int) as int,
                p2.0 as int,
                block_size(p2.1 as int) as int,
            )
    }

    /// Coalescing is eager: below the top order, no two free blocks of the
    /// same order are buddies of one another.
    pub open spec fn no_free_buddies(self) -> bool {
        forall|i: int, j1: int, j2: int|
            0 <= i < LIST_SIZE - 1 && 0 <= j1 < self.free_list@[i]@.len() && 0 <= j2
                < self.free_list@[i]@.len() && j1 != j2 ==> !are_buddies(
                (#[trigger] self.free_list@[i]@[j1]).start_addr as int,
                (#[trigger] self.free_list@[i]@[j2]).start_addr as int,
                block_size(i) as int,
            )
    }

    /// Well-formedness of the whole allocator.
    pub open spec fn inv(self) -> bool {
        &&& self.free_list@.len() == LIST_SIZE
        &&& self.lists_wf()
        &&& (forall|p: (usize, usize)| #[trigger]
            self.allocated@.contains(p) ==> self.alloc_entry_wf(p))
        &&& self.free_free_disjoint()
        &&& self.free_alloc_disjoint()
        &&& self.alloc_alloc_disjoint()
        &&& self.no_free_buddies()
        &&& self.heap_start + self.heap_size <= usize::MAX
    }

    /// Total bytes currently sitting on the free lists.
    pub open spec fn free_bytes(self) -> int {
        fb_rec(self.free_list@, self.free_list@.len() as int)
    }

    /// A fresh allocator with empty free lists; `init` arms it.
    pub fn new() -> (r: BuddyAllocator)
        ensures
            r.inv(),
            r.free_list@.len() == LIST_SIZE,
            forall|i: int| 0 <= i < LIST_SIZE ==> (#[trigger] r.free_list@[i])@.len() == 0,
            r.allocated@ == Set::<(usize, usize)>::empty(),
            !r.initialized,
            r.free_bytes() == 0,
    {
        let mut lists: Vec<Vec<AllocatorNode>> = Vec::new();
        let mut i: usize = 0;
        while i < LIST_SIZE
            invariant
                i <= LIST_SIZE,
                lists@.len() == i,
                forall|n: int| 0 <= n < i ==> (#[trigger] lists@[n])@.len() == 0,
            decreases LIST_SIZE - i,
        {
            lists.push(Vec::new());
            i = i + 1;
        }
        let r = BuddyAllocator {
            free_list: lists,
            heap_start: 0,
            heap_size: 0,
            initialized: false,
            allocated: Ghost(Set::empty()),
        };
        proof {
            lemma_fb_rec_empty(r.free_list@, LIST_SIZE as int);
        }
        r
    }

    /// Arm the allocator over the heap window `[heap_start, heap_start + heap_size)`.
    ///
    /// The window is carved into maximum-order blocks, pushed oldest-last so
    /// that the last block carved becomes the head of the top free list. A
    /// second call is refused and leaves the allocator unchanged.
    pub fn init(&mut self, heap_start: usize, heap_size: usize)
        requires
            old(self).inv(),
            !old(self).initialized ==> {
                &&& forall|i: int|
                    0 <= i < LIST_SIZE ==> (#[trigger] old(self).free_list@[i])@.len() == 0
                &&& old(self).allocated@ == Set::<(usize, usize)>::empty()
                &&& heap_start as int % block_size(LIST_SIZE - 1) as int == 0
                &&& heap_start + heap_size <= usize::MAX
            },
        ensures
            final(self).inv(),
            old(self).initialized ==> *final(self) == *old(self),
            !old(self).initialized ==> {
                &&& final(self).initialized
                &&& final(self).heap_start == heap_start
                &&& final(self).heap_size == heap_size
                &&& final(self).allocated@ == old(self).allocated@
                &&& final(self).free_list@.len() == LIST_SIZE
                &&& final(self).free_list@[LIST_SIZE - 1]@.len() == heap_size as int / block_size(
                    LIST_SIZE - 1,
                ) as int
                &&& forall|l: int|
                    0 <= l < LIST_SIZE - 1 ==> (#[trigger] final(self).free_list@[l])@.len() == 0
                &&& forall|j: int|
                    0 <= j < final(self).free_list@[LIST_SIZE - 1]@.len() ==> (
                    #[trigger] final(self).free_list@[LIST_SIZE - 1]@[j]).start_addr == heap_start
                        + j * block_size(LIST_SIZE - 1)
                &&& final(self).free_bytes() == final(self).free_list@[LIST_SIZE - 1]@.len()
                    * block_size(LIST_SIZE - 1)
            },
    {
        if self.initialized {
            return ;
        }
        self.heap_start = heap_start;
        self.heap_size = heap_size;
        self.initialized = true;
        let top: usize = block_size_exec(LIST_SIZE - 1);
        let nodes_count: usize = heap_size / top;
        proof {
            let q = heap_size as int / top as int;
            vstd::arithmetic::div_mod::lemma_fundamental_div_mod(heap_size as int, top as int);
            vstd::arithmetic::div_mod::lemma_mod_bound(heap_size as int, top as int);
            assert(top as int * q <= heap_size as int);
            assert(nodes_count * top == top as int * q) by (nonlinear_arith)
                requires
                    nodes_count == q,
            ;
        }
        let mut i: usize = 0;
        while i < nodes_count
            invariant
                i <= nodes_count,
                top as nat == block_size(LIST_SIZE - 1),
                MIN_SIZE <= top,
                nodes_count * top <= heap_size,
                heap_start + heap_size <= usize::MAX,
                heap_start as int % top as int == 0,
                self.heap_start == heap_start,
                self.heap_size == heap_size,
                self.initialized,
                self.allocated@ == Set::<(usize, usize)>::empty(),
                self.free_list@.len() == LIST_SIZE,
                forall|l: int|
                    0 <= l < LIST_SIZE - 1 ==> (#[trigger] self.free_list@[l])@.len() == 0,
                self.free_list@[LIST_SIZE - 1]@.len() == i,
                forall|j: int|
                    0 <= j < i ==> #[trigger] self.free_list@[LIST_SIZE - 1]@[j]
                        == (AllocatorNode {
                        start_addr: (heap_start + j * top) as usize,
                        size: top,
                        free_list_index: (LIST_SIZE - 1) as usize,
                    }),
            decreases nodes_count - i,
        {
            proof {
                assert(i * top + top <= nodes_count * top) by (nonlinear_arith)
                    requires
                        i + 1 <= nodes_count,
                        top >= 0,
                ;
                assert(i * top >= 0) by (nonlinear_arith)
                    requires
                        i >= 0,
                        top >= 0,
                ;
            }
            let addr: usize = heap_start + i * top;
            let node = AllocatorNode {
                start_addr: addr,
                size: top,
                free_list_index: LIST_SIZE - 1,
            };
            self.free_list[LIST_SIZE - 1].push(node);
            i = i + 1;
        }
        proof {
            let fl = self.free_list@;
            let top_i = LIST_SIZE - 1;
            // Every carved block is aligned, inside the window, and the
            // blocks are pairwise disjoint because they step by `top`.
            assert forall|j: int| 0 <= j < fl[top_i]@.len() implies self.node_wf(
                #[trigger] fl[top_i]@[j],
                top_i,
            ) by {
                assert((top as int) * j + heap_start as int == heap_start as int + j * top as int)
                    by (nonlinear_arith);
                vstd::arithmetic::div_mod::lemma_mod_multiples_vanish(
                    j,
                    heap_start as int,
                    top as int,
                );
                assert(j * top + top <= nodes_count * top) by (nonlinear_arith)
                    requires
                        j + 1 <= nodes_count,
                        top >= 0,
                ;
                assert(j * top >= 0) by (nonlinear_arith)
                    requires
                        j >= 0,
                        top >= 0,
                ;
            }
            assert forall|j1: int, j2: int|
                0 <= j1 < fl[top_i]@.len() && 0 <= j2 < fl[top_i]@.len() && j1 != j2 implies
                blocks_disjoint(
                fl[top_i]@[j1].start_addr as int,
                block_size(top_i) as int,
                fl[top_i]@[j2].start_addr as int,
                block_size(top_i) as int,
            ) by {
                assert(j1 * top >= 0 && j1 * top + top <= nodes_count * top) by (nonlinear_arith)
                    requires
                        0 <= j1,
                        j1 + 1 <= nodes_count,
                        top >= 0,
                ;
                assert(j2 * top >= 0 && j2 * top + top <= nodes_count * top) by (nonlinear_arith)
                    requires
                        0 <= j2,
                        j2 + 1 <= nodes_count,
                        top >= 0,
                ;
                if j1 < j2 {
                    assert(j1 * top + top <= j2 * top) by (nonlinear_arith)
                        requires
                            j1 + 1 <= j2,
                            top >= 0,
                    ;
                } else {
                    assert(j2 * top + top <= j1 * top) by (nonlinear_arith)
                        requires
                            j2 + 1 <= j1,
                            top >= 0,
                    ;
                }
            }
            assert forall|j: int| 0 <= j < fl[top_i]@.len() implies (
            #[trigger] fl[top_i]@[j]).start_addr == heap_start + j * block_size(top_i) by {
                assert(j * top >= 0 && j * top + top <= nodes_count * top) by (nonlinear_arith)
                    requires
                        0 <= j,
                        j + 1 <= nodes_count,
                        top >= 0,
                ;
            }
            // Byte total: only the top list is populated.
            let empty_lists = old(self).free_list@;
            lemma_fb_rec_empty(empty_lists, LIST_SIZE as int);
            lemma_fb_change(empty_lists, fl, top_i, fl[top_i]@.len() as int, LIST_SIZE as int);
            assert(self.free_bytes() == fl[top_i]@.len() * block_size(top_i));
        }
    }

    /// Take one block of order index `k` off the free lists.
    ///
    /// If list `k` is empty, the lowest non-empty list above it is popped and
    /// the block split down, pushing each right half onto the next lower
    /// list; the left half keeps the popped block's address and is returned.
    /// Returns `None`, leaving the allocator untouched, exactly when no list
    /// at `k` or above holds a block.
    pub fn allocate_block(&mut self, k: usize) -> (r: Option<usize>)
        requires
            old(self).inv(),
            k < LIST_SIZE,
        ensures
            final(self).inv(),
            final(self).heap_start == old(self).heap_start,
            final(self).heap_size == old(self).heap_size,
            final(self).initialized == old(self).initialized,
            r is Some <==> lowest_nonempty(old(self).free_list@, k as int) < LIST_SIZE,
            r is None ==> *final(self) == *old(self),
            r matches Some(addr) ==> ({
                let j = lowest_nonempty(old(self).free_list@, k as int);
                &&& addr == old(self).free_list@[j]@.last().start_addr
                &&& addr as int % block_size(k as int) as int == 0
                &&& old(self).heap_start <= addr
                &&& addr + block_size(k as int) <= old(self).heap_start + old(self).heap_size
                &&& !old(self).allocated@.contains((addr, k))
                &&& final(self).allocated@ == old(self).allocated@.insert((addr, k))
                &&& final(self).free_bytes() == old(self).free_bytes() - block_size(k as int)
                &&& final(self).free_list@[j]@ == old(self).free_list@[j]@.drop_last()
                &&& (forall|m: int|
                    0 <= m < LIST_SIZE && !(k <= m <= j) ==> (#[trigger] final(self).free_list@[
                    m])@ == old(self).free_list@[m]@)
                &&& (forall|m: int|
                    k <= m < j ==> (#[trigger] final(self).free_list@[m])@ == old(
                    self,
                    ).free_list@[m]@.push(
                        AllocatorNode {
                            start_addr: (addr + block_size(m)) as usize,
                            size: block_size(m) as usize,
                            free_list_index: m as usize,
                        },
                    ))
            }),
    {
        let ghost old_lists = self.free_list@;
        let mut j: usize = k;
        while j < LIST_SIZE && self.free_list[j].len() == 0
            invariant
                k <= j <= LIST_SIZE,
                *self == *old(self),
                self.free_list@.len() == LIST_SIZE,
                lowest_nonempty(self.free_list@, k as int) == lowest_nonempty(
                    self.free_list@,
                    j as int,
                ),
            decreases LIST_SIZE - j,
        {
            j = j + 1;
        }
        if j == LIST_SIZE {
            return None;
        }
        let node_opt = self.free_list[j].pop();
        let node = node_opt.unwrap();
        let ghost after_pop = self.free_list@;
        proof {
            assert(lowest_nonempty(old_lists, k as int) == j);
            // Popping the head of list `j` keeps every remaining block and
            // removes `block_size(j)` bytes.
            assert(after_pop == old_lists.update(j as int, after_pop[j as int]));
            assert(after_pop[j as int]@ == old_lists[j as int]@.drop_last());
            lemma_fb_change(old_lists, after_pop, j as int, -1, LIST_SIZE as int);
        }
        let mut cur_idx: usize = j;
        let mut cur_addr: usize = node.start_addr;
        proof {
            // The popped block was well formed and disjoint from all others.
            assert(old(self).node_wf(old_lists[j as int]@.last(), j as int));
            assert forall|i2: int, j2: int|
                0 <= i2 < LIST_SIZE && 0 <= j2 < self.free_list@[i2]@.len() implies
                blocks_disjoint(
                (#[trigger] self.free_list@[i2]@[j2]).start_addr as int,
                block_size(i2) as int,
                cur_addr as int,
                block_size(j as int) as int,
            ) by {
                assert(self.free_list@[i2]@[j2] == old_lists[i2]@[j2]);
            }
            assert forall|i2: int, j2: int|
                0 <= i2 < LIST_SIZE && 0 <= j2 < self.free_list@[i2]@.len() implies self.node_wf(
                #[trigger] self.free_list@[i2]@[j2],
                i2,
            ) by {
                assert(self.free_list@[i2]@[j2] == old_lists[i2]@[j2]);
            }
            assert forall|i2: int, j1: int, j2: int|
                0 <= i2 < LIST_SIZE - 1 && 0 <= j1 < self.free_list@[i2]@.len() && 0 <= j2
                    < self.free_list@[i2]@.len() && j1 != j2 implies !are_buddies(
                (#[trigger] self.free_list@[i2]@[j1]).start_addr as int,
                (#[trigger] self.free_list@[i2]@[j2]).start_addr as int,
                block_size(i2) as int,
            ) by {
                assert(self.free_list@[i2]@[j1] == old_lists[i2]@[j1]);
                assert(self.free_list@[i2]@[j2] == old_lists[i2]@[j2]);
            }
        }
        while cur_idx > k
            invariant
                old(self).inv(),
                k <= cur_idx <= j < LIST_SIZE,
                self.free_list@.len() == LIST_SIZE,
                self.heap_start == old(self).heap_start,
                self.heap_size == old(self).heap_size,
                self.initialized == old(self).initialized,
                self.allocated@ == old(self).allocated@,
                self.lists_wf(),
                self.free_free_disjoint(),
                self.free_alloc_disjoint(),
                self.alloc_alloc_disjoint(),
                self.no_free_buddies(),
                self.heap_start + self.heap_size <= usize::MAX,
                cur_addr as int % block_size(cur_idx as int) as int == 0,
                self.heap_start <= cur_addr,
                cur_addr + block_size(cur_idx as int) <= self.heap_start + self.heap_size,
                cur_addr == old_lists[j as int]@.last().start_addr,
                self.free_list@[j as int]@ == old_lists[j as int]@.drop_last(),
                forall|m: int|
                    0 <= m < LIST_SIZE && !(cur_idx <= m <= j) ==> (#[trigger] self.free_list@[
                    m])@ == old_lists[m]@,
                forall|m: int|
                    cur_idx <= m < j ==> (#[trigger] self.free_list@[m])@ == old_lists[m]@.push(
                        AllocatorNode {
                            start_addr: (cur_addr + block_size(m)) as usize,
                            size: block_size(m) as usize,
                            free_list_index: m as usize,
                        },
                    ),
                forall|i2: int, j2: int|
                    0 <= i2 < LIST_SIZE && 0 <= j2 < self.free_list@[i2]@.len()
                        ==> blocks_disjoint(
                        (#[trigger] self.free_list@[i2]@[j2]).start_addr as int,
                        block_size(i2) as int,
                        cur_addr as int,
                        block_size(cur_idx as int) as int,
                    ),
                forall|p: (usize, usize)|
                    #[trigger] self.allocated@.contains(p) ==> blocks_disjoint(
                        p.0 as int,
                        block_size(p.1 as int) as int,
                        cur_addr as int,
                        block_size(cur_idx as int) as int,
                    ),
                fb_rec(self.free_list@, LIST_SIZE as int) == fb_rec(old_lists, LIST_SIZE as int)
                    - block_size(cur_idx as int),
            decreases cur_idx,
        {
            let half: usize = block_size_exec(cur_idx - 1);
            proof {
                lemma_pow2_adds((cur_idx - 1 + MIN_ORDER_INCLUSIVE) as nat, 1);
                lemma2_to64();
                assert(block_size(cur_idx as int) == block_size(cur_idx - 1) * 2);
                vstd::arithmetic::power2::lemma_pow2_pos(
                    (cur_idx - 1 + MIN_ORDER_INCLUSIVE) as nat,
                );
                // The left half inherits the alignment of the whole block.
                vstd::arithmetic::div_mod::lemma_mod_mod(cur_addr as int, half as int, 2);
                assert(cur_addr as int % (half as int * 2) == 0);
                assert(cur_addr as int % half as int == 0);
                vstd::arithmetic::div_mod::lemma_mod_add_multiples_vanish(
                    cur_addr as int,
                    half as int,
                );
                assert((cur_addr as int + half as int) % half as int == 0);
            }
            let right: usize = cur_addr + half;
            let new_node = AllocatorNode {
                start_addr: right,
                size: half,
                free_list_index: cur_idx - 1,
            };
            let ghost before_push = self.free_list@;
            self.free_list[cur_idx - 1].push(new_node);
            proof {
                let li = cur_idx as int - 1;
                let fl = self.free_list@;
                assert(fl[li]@ == before_push[li]@.push(new_node));
                assert forall|i2: int, j2: int|
                    0 <= i2 < fl.len() && 0 <= j2 < fl[i2]@.len() implies self.node_wf(
                    #[trigger] fl[i2]@[j2],
                    i2,
                ) by {
                    if i2 != li || j2 < before_push[li]@.len() {
                        assert(fl[i2]@[j2] == before_push[i2]@[j2]);
                    }
                }
                assert forall|i1: int, j1: int, i2: int, j2: int|
                    0 <= i1 < fl.len() && 0 <= j1 < fl[i1]@.len() && 0 <= i2 < fl.len() && 0 <= j2
                        < fl[i2]@.len() && (i1 != i2 || j1 != j2) implies blocks_disjoint(
                    (#[trigger] fl[i1]@[j1]).start_addr as int,
                    block_size(i1) as int,
                    (#[trigger] fl[i2]@[j2]).start_addr as int,
                    block_size(i2) as int,
                ) by {
                    if i1 != li || j1 < before_push[li]@.len() {
                        assert(fl[i1]@[j1] == before_push[i1]@[j1]);
                    }
                    if i2 != li || j2 < before_push[li]@.len() {
                        assert(fl[i2]@[j2] == before_push[i2]@[j2]);
                    }
                }
                // The pushed right half is nobody's buddy on its list: its
                // upper neighbour would sit at remainder `h` modulo `2h`,
                // and its lower neighbour is the left half, which is still
                // in flight, not free.
                vstd::arithmetic::power2::lemma_pow2_pos(
                    (cur_idx - 1 + MIN_ORDER_INCLUSIVE) as nat,
                );
                lemma_half_offset_mod(cur_addr as int, half as int);
                assert forall|i2: int, j1: int, j2: int|
                    0 <= i2 < LIST_SIZE - 1 && 0 <= j1 < fl[i2]@.len() && 0 <= j2
                        < fl[i2]@.len() && j1 != j2 implies !are_buddies(
                    (#[trigger] fl[i2]@[j1]).start_addr as int,
                    (#[trigger] fl[i2]@[j2]).start_addr as int,
                    block_size(i2) as int,
                ) by {
                    if i2 != li || (j1 < before_push[li]@.len() && j2 < before_push[li]@.len()) {
                        assert(fl[i2]@[j1] == before_push[i2]@[j1]);
                        assert(fl[i2]@[j2] == before_push[i2]@[j2]);
                    } else if j1 == before_push[li]@.len() {
                        assert(fl[i2]@[j1] == new_node);
                        assert(fl[i2]@[j2] == before_push[i2]@[j2]);
                    } else {
                        assert(fl[i2]@[j2] == new_node);
                        assert(fl[i2]@[j1] == before_push[i2]@[j1]);
                    }
                }
                lemma_fb_change(before_push, fl, li, 1, LIST_SIZE as int);
            }
            cur_idx = cur_idx - 1;
        }
        proof {
            // A block of positive size cannot be disjoint from itself, so the
            // returned block is fresh in the allocated set.
            vstd::arithmetic::power2::lemma_pow2_pos((k + MIN_ORDER_INCLUSIVE) as nat);
            assert(!self.allocated@.contains((cur_addr, k)));
        }
        self.allocated = Ghost(self.allocated@.insert((cur_addr, k)));
        proof {
            vstd::arithmetic::power2::lemma_pow2_pos((k + MIN_ORDER_INCLUSIVE) as nat);
            assert forall|p: (usize, usize)| #[trigger]
                self.allocated@.contains(p) implies self.alloc_entry_wf(p) by {
                if p != ((cur_addr, k)) {
                    assert(old(self).allocated@.contains(p));
                    assert(old(self).alloc_entry_wf(p));
                } else {
                    assert(cur_addr as int % block_size(k as int) as int == 0);
                    assert(self.heap_start <= cur_addr);
                    assert(cur_addr + block_size(k as int) <= self.heap_start + self.heap_size);
                }
            }
            assert forall|p1: (usize, usize), p2: (usize, usize)|
                self.allocated@.contains(p1) && self.allocated@.contains(p2) && p1 != p2 implies
                blocks_disjoint(
                p1.0 as int,
                block_size(p1.1 as int) as int,
                p2.0 as int,
                block_size(p2.1 as int) as int,
            ) by {
                if p1 != ((cur_addr, k)) && p2 != ((cur_addr, k)) {
                    assert(old(self).allocated@.contains(p1));
                    assert(old(self).allocated@.contains(p2));
                }
            }
        }
        Some(cur_addr)
    }

    /// Give back the block `(addr, k)`; it is merged with its free buddy as
    /// long as one exists, then the merged block is pushed onto its list.
    pub fn deallocate_block(&mut self, addr: usize, k: usize)
        requires
            old(self).inv(),
            k < LIST_SIZE,
            old(self).allocated@.contains((addr, k)),
        ensures
            final(self).inv(),
            final(self).heap_start == old(self).heap_start,
            final(self).heap_size == old(self).heap_size,
            final(self).initialized == old(self).initialized,
            final(self).allocated@ == old(self).allocated@.remove((addr, k)),
            final(self).free_bytes() == old(self).free_bytes() + block_size(k as int),
            exists|m: int|
                k <= m < LIST_SIZE && #[trigger] landed_at(
                    final(self).free_list@[m]@,
                    m,
                    addr as int,
                    k as int,
                ),
    {
        proof {
            assert(old(self).alloc_entry_wf((addr, k)));
        }
        self.allocated = Ghost(self.allocated@.remove((addr, k)));
        proof {
            assert forall|p: (usize, usize)| #[trigger]
                self.allocated@.contains(p) implies self.alloc_entry_wf(p)
                && blocks_disjoint(
                p.0 as int,
                block_size(p.1 as int) as int,
                addr as int,
                block_size(k as int) as int,
            ) by {
                assert(old(self).allocated@.contains(p));
                assert(p != ((addr, k)));
            }
        }
        self.recursively_dealloc_and_connect_buddy_nodes(addr, k);
    }

    /// Walk up the orders merging the freed block with its buddy wherever the
    /// buddy is free; the final block is pushed onto the list of its order.
    fn recursively_dealloc_and_connect_buddy_nodes(&mut self, cur_addr: usize, cur_idx: usize)
        requires
            old(self).free_list@.len() == LIST_SIZE,
            old(self).lists_wf(),
            old(self).free_free_disjoint(),
            old(self).free_alloc_disjoint(),
            old(self).alloc_alloc_disjoint(),
            old(self).no_free_buddies(),
            forall|p: (usize, usize)|
                old(self).allocated@.contains(p) ==> old(self).alloc_entry_wf(p),
            old(self).heap_start + old(self).heap_size <= usize::MAX,
            cur_idx < LIST_SIZE,
            cur_addr as int % block_size(cur_idx as int) as int == 0,
            old(self).heap_start <= cur_addr,
            cur_addr + block_size(cur_idx as int) <= old(self).heap_start + old(self).heap_size,
            forall|i2: int, j2: int|
                0 <= i2 < LIST_SIZE && 0 <= j2 < old(self).free_list@[i2]@.len()
                    ==> blocks_disjoint(
                    (#[trigger] old(self).free_list@[i2]@[j2]).start_addr as int,
                    block_size(i2) as int,
                    cur_addr as int,
                    block_size(cur_idx as int) as int,
                ),
            forall|p: (usize, usize)| #[trigger]
                old(self).allocated@.contains(p) ==> blocks_disjoint(
                    p.0 as int,
                    block_size(p.1 as int) as int,
                    cur_addr as int,
                    block_size(cur_idx as int) as int,
                ),
        ensures
            final(self).inv(),
            final(self).heap_start == old(self).heap_start,
            final(self).heap_size == old(self).heap_size,
            final(self).initialized == old(self).initialized,
            final(self).allocated@ == old(self).allocated@,
            final(self).free_bytes() == fb_rec(old(self).free_list@, LIST_SIZE as int)
                + block_size(cur_idx as int),
            exists|m: int|
                cur_idx <= m < LIST_SIZE && #[trigger] landed_at(
                    final(self).free_list@[m]@,
                    m,
                    cur_addr as int,
                    cur_idx as int,
                ),
        decreases LIST_SIZE - cur_idx,
    {
        let ghost old_lists = self.free_list@;
        let size: usize = block_size_exec(cur_idx);
        if cur_idx < LIST_SIZE - 1 {
            let buddy_addr: usize = cur_addr ^ size;
            proof {
                lemma_shift_is_pow2((cur_idx + MIN_ORDER_INCLUSIVE) as usize);
                lemma_pow2_adds((cur_idx + MIN_ORDER_INCLUSIVE) as nat, 1);
                lemma2_to64();
                lemma_buddy(cur_addr, size, (cur_idx + MIN_ORDER_INCLUSIVE) as usize);
            }
            let flen: usize = self.free_list[cur_idx].len();
            let mut fi: usize = 0;
            while fi < flen && self.free_list[cur_idx][fi].start_addr != buddy_addr
                invariant
                    *self == *old(self),
                    cur_idx < LIST_SIZE,
                    self.free_list@.len() == LIST_SIZE,
                    flen == self.free_list@[cur_idx as int]@.len(),
                    fi <= flen,
                    forall|q: int|
                        0 <= q < fi ==> (#[trigger] self.free_list@[cur_idx as int]@[q]).start_addr
                            != buddy_addr,
                decreases flen - fi,
            {
                fi = fi + 1;
            }
            if fi < flen {
                // The buddy is free: unlink it and merge.
                let buddy_node = self.free_list[cur_idx].remove(fi);
                let merged_addr: usize = if cur_addr < buddy_node.start_addr {
                    cur_addr
                } else {
                    buddy_node.start_addr
                };
                proof {
                    let fl = self.free_list@;
                    let ci = cur_idx as int;
                    old_lists[ci]@.remove_ensures(fi as int);
                    assert(buddy_node == old_lists[ci]@[fi as int]);
                    assert(old(self).node_wf(buddy_node, ci));
                    // The merged block covers exactly the two adjacent halves.
                    assert(block_size(ci + 1) == block_size(ci) * 2);
                    assert(merged_addr as int % block_size(ci + 1) as int == 0);
                    assert(merged_addr + block_size(ci + 1) <= old(self).heap_start + old(
                        self,
                    ).heap_size);
                    // Remaining free blocks and the allocated set are disjoint
                    // from both halves, hence from the merged block.
                    assert forall|i2: int, j2: int|
                        0 <= i2 < LIST_SIZE && 0 <= j2 < fl[i2]@.len() implies self.node_wf(
                        #[trigger] fl[i2]@[j2],
                        i2,
                    ) && blocks_disjoint(
                        fl[i2]@[j2].start_addr as int,
                        block_size(i2) as int,
                        merged_addr as int,
                        block_size(ci + 1) as int,
                    ) by {
                        if i2 == ci && j2 >= fi {
                            assert(fl[i2]@[j2] == old_lists[i2]@[j2 + 1]);
                        } else {
                            assert(fl[i2]@[j2] == old_lists[i2]@[j2]);
                        }
                    }
                    assert forall|i1: int, j1: int, i2: int, j2: int|
                        0 <= i1 < LIST_SIZE && 0 <= j1 < fl[i1]@.len() && 0 <= i2 < LIST_SIZE && 0
                            <= j2 < fl[i2]@.len() && (i1 != i2 || j1 != j2) implies
                        blocks_disjoint(
                        (#[trigger] fl[i1]@[j1]).start_addr as int,
                        block_size(i1) as int,
                        (#[trigger] fl[i2]@[j2]).start_addr as int,
                        block_size(i2) as int,
                    ) by {
                        if i1 == ci && j1 >= fi {
                            assert(fl[i1]@[j1] == old_lists[i1]@[j1 + 1]);
                        } else {
                            assert(fl[i1]@[j1] == old_lists[i1]@[j1]);
                        }
                        if i2 == ci && j2 >= fi {
                            assert(fl[i2]@[j2] == old_lists[i2]@[j2 + 1]);
                        } else {
                            assert(fl[i2]@[j2] == old_lists[i2]@[j2]);
                        }
                    }
                    assert forall|i2: int, j1: int, j2: int|
                        0 <= i2 < LIST_SIZE - 1 && 0 <= j1 < fl[i2]@.len() && 0 <= j2
                            < fl[i2]@.len() && j1 != j2 implies !are_buddies(
                        (#[trigger] fl[i2]@[j1]).start_addr as int,
                        (#[trigger] fl[i2]@[j2]).start_addr as int,
                        block_size(i2) as int,
                    ) by {
                        if i2 == ci && j1 >= fi {
                            assert(fl[i2]@[j1] == old_lists[i2]@[j1 + 1]);
                        } else {
                            assert(fl[i2]@[j1] == old_lists[i2]@[j1]);
                        }
                        if i2 == ci && j2 >= fi {
                            assert(fl[i2]@[j2] == old_lists[i2]@[j2 + 1]);
                        } else {
                            assert(fl[i2]@[j2] == old_lists[i2]@[j2]);
                        }
                    }
                    lemma_fb_change(old_lists, fl, ci, -1, LIST_SIZE as int);
                    assert forall|p: (usize, usize)| #[trigger]
                        self.allocated@.contains(p) implies self.alloc_entry_wf(p)
                        && blocks_disjoint(
                        p.0 as int,
                        block_size(p.1 as int) as int,
                        merged_addr as int,
                        block_size(ci + 1) as int,
                    ) by {
                        assert(old(self).allocated@.contains(p));
                        assert(old(self).alloc_entry_wf(p));
                        // disjoint from the freed block by precondition and
                        // from the buddy because the buddy was free
                        assert(blocks_disjoint(
                            (old_lists[ci]@[fi as int]).start_addr as int,
                            block_size(ci) as int,
                            p.0 as int,
                            block_size(p.1 as int) as int,
                        ));
                    }
                }
                self.recursively_dealloc_and_connect_buddy_nodes(merged_addr, cur_idx + 1);
                proof {
                    lemma_pow2_adds((cur_idx + MIN_ORDER_INCLUSIVE) as nat, 1);
                    lemma2_to64();
                    // The merged block contains the freed block, so the list
                    // head that absorbed the merged block also contains it.
                    let m = choose|m: int|
                        cur_idx + 1 <= m < LIST_SIZE && #[trigger] landed_at(
                            self.free_list@[m]@,
                            m,
                            merged_addr as int,
                            cur_idx as int + 1,
                        );
                    assert(landed_at(
                        self.free_list@[m]@,
                        m,
                        cur_addr as int,
                        cur_idx as int,
                    ));
                }
                return ;
            }
        }
        // No free buddy (or already at the top order): the block goes onto
        // the free list of its own order.
        let node = AllocatorNode {
            start_addr: cur_addr,
            size,
            free_list_index: cur_idx,
        };
        let ghost before_push = self.free_list@;
        self.free_list[cur_idx].push(node);
        proof {
            let li = cur_idx as int;
            let fl = self.free_list@;
            assert(fl[li]@ == before_push[li]@.push(node));
            assert forall|i2: int, j2: int|
                0 <= i2 < fl.len() && 0 <= j2 < fl[i2]@.len() implies self.node_wf(
                #[trigger] fl[i2]@[j2],
                i2,
            ) by {
                if i2 != li || j2 < before_push[li]@.len() {
                    assert(fl[i2]@[j2] == before_push[i2]@[j2]);
                }
            }
            assert forall|i1: int, j1: int, i2: int, j2: int|
                0 <= i1 < fl.len() && 0 <= j1 < fl[i1]@.len() && 0 <= i2 < fl.len() && 0 <= j2
                    < fl[i2]@.len() && (i1 != i2 || j1 != j2) implies blocks_disjoint(
                (#[trigger] fl[i1]@[j1]).start_addr as int,
                block_size(i1) as int,
                (#[trigger] fl[i2]@[j2]).start_addr as int,
                block_size(i2) as int,
            ) by {
                if i1 != li || j1 < before_push[li]@.len() {
                    assert(fl[i1]@[j1] == before_push[i1]@[j1]);
                }
                if i2 != li || j2 < before_push[li]@.len() {
                    assert(fl[i2]@[j2] == before_push[i2]@[j2]);
                }
            }
            assert forall|i2: int, j2: int, p: (usize, usize)|
                0 <= i2 < fl.len() && 0 <= j2 < fl[i2]@.len() && (
            #[trigger] self.allocated@.contains(p)) implies blocks_disjoint(
                (#[trigger] fl[i2]@[j2]).start_addr as int,
                block_size(i2) as int,
                p.0 as int,
                block_size(p.1 as int) as int,
            ) by {
                assert(old(self).allocated@.contains(p));
                if i2 != li || j2 < before_push[li]@.len() {
                    assert(fl[i2]@[j2] == before_push[i2]@[j2]);
                }
            }
            assert forall|p: (usize, usize)| #[trigger]
                self.allocated@.contains(p) implies self.alloc_entry_wf(p) by {
                assert(old(self).allocated@.contains(p));
                assert(old(self).alloc_entry_wf(p));
            }
            assert(landed_at(
                self.free_list@[cur_idx as int]@,
                cur_idx as int,
                cur_addr as int,
                cur_idx as int,
            ));
            // Below the top order the pushed block has no free buddy: the
            // search that led here found no block at the buddy address, and
            // the buddy address is the only possible buddy.
            assert forall|i2: int, j1: int, j2: int|
                0 <= i2 < LIST_SIZE - 1 && 0 <= j1 < fl[i2]@.len() && 0 <= j2 < fl[i2]@.len() && j1
                    != j2 implies !are_buddies(
                (#[trigger] fl[i2]@[j1]).start_addr as int,
                (#[trigger] fl[i2]@[j2]).start_addr as int,
                block_size(i2) as int,
            ) by {
                if i2 != li || (j1 < before_push[li]@.len() && j2 < before_push[li]@.len()) {
                    assert(fl[i2]@[j1] == before_push[i2]@[j1]);
                    assert(fl[i2]@[j2] == before_push[i2]@[j2]);
                } else {
                    let oj: int = if j1 == before_push[li]@.len() {
                        j2
                    } else {
                        j1
                    };
                    assert(fl[i2]@[oj] == before_push[i2]@[oj]);
                    let other = before_push[li]@[oj];
                    assert(other.start_addr != (cur_addr ^ size));
                    if are_buddies(cur_addr as int, other.start_addr as int, size as int) {
                        lemma_buddy_is_xor(
                            cur_addr,
                            other.start_addr as int,
                            size,
                            (cur_idx + MIN_ORDER_INCLUSIVE) as usize,
                        );
                    }
                }
            }
            lemma_fb_change(before_push, fl, li, 1, LIST_SIZE as int);
        }
    }
}

/// A left shift of one is the corresponding power of two.
proof fn lemma_shift_is_pow2(e: usize)
    requires
        e < MAX_ORDER_EXCLUSIVE + 1,
    ensures
        (1usize << e) as nat == pow2(e as nat),
{
    vstd::bits::lemma_usize_pow2_no_overflow(e as nat);
    vstd::bits::lemma_usize_shl_is_mul(1usize, e);
}


/// Buddy arithmetic over bit masks: for an address `a` aligned to the
/// power-of-two size `s == 2^e` (mask `m`), the buddy `a ^ s` is the adjacent
/// block of the same size, and the lower of the two blocks is aligned to
/// `2 * s` (mask `m2`).
proof fn lemma_buddy_bits(a: usize, s: usize, m: usize, m2: usize, e: usize, e2: usize)
    requires
        e < 19,
        e2 == e + 1,
        s == (1usize << e),
        m == (1usize << e) - 1,
        m2 == (1usize << e2) - 1,
        a & m == 0,
    ensures
        a & m2 == 0 ==> (a ^ s) == a + s,
        a & m2 != 0 ==> a >= s && (a ^ s) == a - s && ((a ^ s) & m2) == 0,
{
    assert((a & m2 == 0 ==> (a ^ s) == a + s) && (a & m2 != 0 ==> a >= s && (a ^ s) == a - s && ((
    a ^ s) & m2) == 0)) by (bit_vector)
        requires
            e < 19,
            e2 == e + 1,
            s == (1usize << e),
            m == (1usize << e) - 1,
            m2 == (1usize << e2) - 1,
            a & m == 0,
    ;
}

/// The buddy of a size-aligned block is the adjacent block of the same size,
/// and the lower of the two is aligned to twice the size. Bridges the mask
/// statement of `lemma_buddy_bits` to the arithmetic alignment the allocator
/// invariant uses.
proof fn lemma_buddy(a: usize, s: usize, e: usize)
    requires
        e < 19,
        s as nat == pow2(e as nat),
        a as int % (s as int) == 0,
    ensures
        a as int % (2 * s) == 0 ==> (a ^ s) == a + s,
        a as int % (2 * s) != 0 ==> a >= s && (a ^ s) == a - s && (a ^ s) as int % (2 * s) == 0,
{
    lemma_shift_is_pow2(e);
    lemma_shift_is_pow2((e + 1) as usize);
    lemma_pow2_adds(e as nat, 1);
    lemma2_to64();
    let m = ((1usize << e) - 1) as usize;
    let m2 = ((1usize << ((e + 1) as usize)) - 1) as usize;
    vstd::bits::lemma_usize_low_bits_mask_is_mod(a, e as nat);
    vstd::bits::lemma_usize_low_bits_mask_is_mod(a, (e + 1) as nat);
    vstd::bits::lemma_usize_low_bits_mask_is_mod(a ^ s, (e + 1) as nat);
    assert(low_bits_mask(e as nat) as usize == m);
    assert(low_bits_mask((e + 1) as nat) as usize == m2);
    lemma_buddy_bits(a, s, m, m2, e, (e + 1) as usize);
}

/// A multiple of `s` is, modulo `2 * s`, either zero or `s`.
proof fn lemma_mod_double(a: int, s: int)
    requires
        s > 0,
        a >= 0,
        a % s == 0,
    ensures
        a % (2 * s) == 0 || a % (2 * s) == s,
{
    vstd::arithmetic::div_mod::lemma_mod_breakdown(a, s, 2);
    vstd::arithmetic::div_mod::lemma_mod_bound(a / s, 2);
    let bit = (a / s) % 2;
    assert(a % (s * 2) == s * bit + a % s);
    if bit == 0 {
        assert(s * bit == 0) by (nonlinear_arith)
            requires
                bit == 0,
        ;
    } else {
        assert(bit == 1);
        assert(s * bit == s) by (nonlinear_arith)
            requires
                bit == 1,
        ;
    }
}

/// The right half of a block aligned to `2 * h` sits at remainder `h`.
proof fn lemma_half_offset_mod(a: int, h: int)
    requires
        h > 0,
        a >= 0,
        a % (2 * h) == 0,
    ensures
        (a + h) % (2 * h) == h,
{
    let q = a / (2 * h);
    vstd::arithmetic::div_mod::lemma_fundamental_div_mod(a, 2 * h);
    assert(a == (2 * h) * q);
    vstd::arithmetic::div_mod::lemma_mod_multiples_vanish(q, h, 2 * h);
    vstd::arithmetic::div_mod::lemma_small_mod(h as nat, (2 * h) as nat);
}

/// For a block aligned to its size `s == 2^e`, the only possible buddy
/// address at that size is `a ^ s`.
proof fn lemma_buddy_is_xor(a: usize, b: int, s: usize, e: usize)
    requires
        e < 19,
        s as nat == pow2(e as nat),
        a as int % (s as int) == 0,
        b >= 0,
        are_buddies(a as int, b, s as int),
    ensures
        b == (a ^ s) as int,
{
    vstd::arithmetic::power2::lemma_pow2_pos(e as nat);
    lemma_buddy(a, s, e);
    lemma_mod_double(a as int, s as int);
    if a as int % (2 * s) == 0 {
        // the buddy lies above: `b == a + s`
        if b % (2 * s as int) == 0 && a as int == b + s {
            lemma_half_offset_mod(b, s as int);
            assert(false);
        }
    } else {
        // the buddy lies below: `b == a - s`
        if a as int % (2 * s) == 0 && b == a + s {
            assert(false);
        }
    }
}

/// Byte size of the blocks on free list `i`.
pub fn block_size_exec(i: usize) -> (s: usize)
    requires
        i < LIST_SIZE,
    ensures
        s as nat == block_size(i as int),
        MIN_SIZE <= s,
        s as nat <= pow2((MAX_ORDER_EXCLUSIVE - 1) as nat),
{
    proof {
        lemma2_to64();
    }
    let mut s: usize = MIN_SIZE;
    let mut j: usize = 0;
    while j < i
        invariant
            j <= i,
            i < LIST_SIZE,
            s as nat == pow2((j + MIN_ORDER_INCLUSIVE) as nat),
            MIN_SIZE <= s,
        decreases i - j,
    {
        proof {
            lemma_pow2_adds((j + MIN_ORDER_INCLUSIVE) as nat, 1);
            lemma_pow2_le(
                (j + 1 + MIN_ORDER_INCLUSIVE) as nat,
                (MAX_ORDER_EXCLUSIVE - 1) as nat,
            );
            lemma2_to64();
        }
        s = s * 2;
        j = j + 1;
    }
    proof {
        lemma_pow2_le((i + MIN_ORDER_INCLUSIVE) as nat, (MAX_ORDER_EXCLUSIVE - 1) as nat);
        lemma2_to64();
    }
    s
}

/// Changing the length of one list changes the byte total by that many
/// blocks of the list's size; the other lists' lengths must be unchanged.
proof fn lemma_fb_change(
    l1: Seq<Vec<AllocatorNode>>,
    l2: Seq<Vec<AllocatorNode>>,
    i: int,
    d: int,
    n: int,
)
    requires
        l1.len() == l2.len(),
        0 <= i < l1.len(),
        n <= l1.len(),
        forall|i2: int| 0 <= i2 < l1.len() && i2 != i ==> (#[trigger] l2[i2])@.len() == l1[i2]@.len(),
        l2[i]@.len() == l1[i]@.len() + d,
    ensures
        fb_rec(l2, n) == fb_rec(l1, n) + (if i < n {
            d * block_size(i)
        } else {
            0
        }),
    decreases n,
{
    if n > 0 {
        lemma_fb_change(l1, l2, i, d, n - 1);
        if i == n - 1 {
            assert((l1[n - 1]@.len() + d) * block_size(n - 1) == l1[n - 1]@.len() * block_size(
                n - 1,
            ) + d * block_size(n - 1)) by (nonlinear_arith);
        }
    }
}

/// If the first `n` lists are empty, they hold no bytes.
proof fn lemma_fb_rec_empty(lists: Seq<Vec<AllocatorNode>>, n: int)
    requires
        n <= lists.len(),
        forall|i: int| 0 <= i < n ==> (#[trigger] lists[i])@.len() == 0,
    ensures
        fb_rec(lists, n) == 0,
    decreases n,
{
    if n > 0 {
        lemma_fb_rec_empty(lists, n - 1);
    }
}

/// `pow2` is monotonic.
pub proof fn lemma_pow2_le(e1: nat, e2: nat)
    requires
        e1 <= e2,
    ensures
        pow2(e1) <= pow2(e2),
{
    if e1 < e2 {
        lemma_pow2_strictly_increases(e1, e2);
    }
}

/// Base-2 logarithm of `size`, relative to the smallest order.
///
/// Mirrors the table lookup the allocator performs for every request: for a
/// power-of-two `size` between `MIN_SIZE` and `2^18`, the result is the index
/// of the free list that holds blocks of that size.
pub fn free_list_index(size: usize) -> (r: usize)
    requires
        MIN_SIZE <= size,
        (size as nat) < pow2(MAX_ORDER_EXCLUSIVE as nat),
    ensures
        r as nat == spec_log2(size as nat) - (MIN_ORDER_INCLUSIVE as nat),
        r < LIST_SIZE,
        (size as nat) == pow2(spec_log2(size as nat)) ==> size as nat == block_size(r as int),
{
    proof {
        lemma_log2_bounds(size as nat);
        if spec_log2(size as nat) >= MAX_ORDER_EXCLUSIVE as nat {
            lemma_pow2_le(MAX_ORDER_EXCLUSIVE as nat, spec_log2(size as nat));
        }
        lemma_log2_pow2(MIN_ORDER_INCLUSIVE as nat);
        lemma2_to64();
        lemma_log2_mono(MIN_SIZE as nat, size as nat);
    }
    let mut v: usize = size;
    let mut order: usize = 0;
    while v >= 2
        invariant
            1 <= v <= size,
            spec_log2(size as nat) == order + spec_log2(v as nat),
            spec_log2(size as nat) < MAX_ORDER_EXCLUSIVE as nat,
        decreases v,
    {
        v = v / 2;
        order = order + 1;
    }
    proof {
        lemma2_to64();
        if (size as nat) == pow2(spec_log2(size as nat)) {
            lemma_pow2_adds(
                (order - MIN_ORDER_INCLUSIVE) as nat,
                MIN_ORDER_INCLUSIVE as nat,
            );
        }
    }
    order - MIN_ORDER_INCLUSIVE
}

/// `spec_log2` brackets its argument between consecutive powers of two.
pub proof fn lemma_log2_bounds(n: nat)
    requires
        n >= 1,
    ensures
        pow2(spec_log2(n)) <= n,
        n < pow2(spec_log2(n) + 1),
    decreases n,
{
    if n < 2 {
        lemma2_to64();
    } else {
        lemma_log2_bounds(n / 2);
        lemma_pow2_adds(spec_log2(n / 2), 1);
        lemma_pow2_adds(spec_log2(n / 2) + 1, 1);
        lemma2_to64();
    }
}

/// `spec_log2` is monotonic.
pub proof fn lemma_log2_mono(a: nat, b: nat)
    requires
        a <= b,
    ensures
        spec_log2(a) <= spec_log2(b),
    decreases b,
{
    if a >= 2 && b >= 2 {
        lemma_log2_mono(a / 2, b / 2);
    }
}

/// `log2` of a power of two recovers the exponent.
pub proof fn lemma_log2_pow2(e: nat)
    ensures
        spec_log2(pow2(e)) == e,
    decreases e,
{
    if e == 0 {
        lemma2_to64();
    } else {
        lemma_log2_pow2((e - 1) as nat);
        lemma_pow2_adds((e - 1) as nat, 1);
        lemma2_to64();
        vstd::arithmetic::power2::lemma_pow2_pos((e - 1) as nat);
        assert(pow2(e) == pow2((e - 1) as nat) * 2);
        assert(pow2(e) / 2 == pow2((e - 1) as nat));
    }
}

/// Size class a request is served from: the least power of two that is at
/// least `size`, clamped below at `MIN_SIZE`.
pub fn get_clamped_size_from_layout(size: usize) -> (r: usize)
    requires
        size as nat <= pow2((MAX_ORDER_EXCLUSIVE - 1) as nat),
    ensures
        r as nat == spec_clamped_size(size as nat),
        r as nat == pow2(spec_log2(r as nat)),
        MIN_SIZE <= r,
        size <= r,
        r as nat <= pow2((MAX_ORDER_EXCLUSIVE - 1) as nat),
{
    proof {
        lemma2_to64();
    }
    let mut r: usize = MIN_SIZE;
    let ghost mut e: nat = MIN_ORDER_INCLUSIVE as nat;
    while r < size
        invariant
            size as nat <= pow2((MAX_ORDER_EXCLUSIVE - 1) as nat),
            r as nat == pow2(e),
            MIN_ORDER_INCLUSIVE as nat <= e,
            e > MIN_ORDER_INCLUSIVE as nat ==> pow2((e - 1) as nat) < size as nat,
            r as nat <= pow2((MAX_ORDER_EXCLUSIVE - 1) as nat),
            e <= (MAX_ORDER_EXCLUSIVE - 1) as nat,
            MIN_SIZE <= r,
        decreases (MAX_ORDER_EXCLUSIVE - 1) as nat - e,
    {
        proof {
            // `pow2(e) == r < size <= 2^18`, so `e < 18` and doubling is safe.
            if e >= (MAX_ORDER_EXCLUSIVE - 1) as nat {
                lemma_pow2_le((MAX_ORDER_EXCLUSIVE - 1) as nat, e);
                assert(false);
            }
            lemma_pow2_adds(e, 1);
            lemma2_to64();
            lemma_pow2_le(e + 1, (MAX_ORDER_EXCLUSIVE - 1) as nat);
        }
        r = r * 2;
        proof {
            e = e + 1;
        }
    }
    proof {
        lemma_log2_pow2(e);
        lemma2_to64();
        if size as nat > MIN_SIZE as nat {
            // `r` is the least power of two that is at least `size`:
            // `pow2(e - 1) < size <= pow2(e)` pins `e` against `spec_log2(size)`.
            lemma_log2_bounds(size as nat);
            let ls = spec_log2(size as nat);
            assert(e > MIN_ORDER_INCLUSIVE as nat);
            assert(pow2((e - 1) as nat) < size as nat);
            if pow2(ls) == size as nat {
                if e < ls {
                    lemma_pow2_strictly_increases(e, ls);
                }
                if e > ls {
                    lemma_pow2_le(ls, (e - 1) as nat);
                }
                assert(e == ls);
            } else {
                assert(pow2(ls) < size as nat);
                if e < ls + 1 {
                    lemma_pow2_le(e, ls);
                }
                if e > ls + 1 {
                    lemma_pow2_le(ls + 1, (e - 1) as nat);
                }
                assert(e == ls + 1);
            }
        }
    }
    r
}

impl BuddyAllocator {
    /// Serve a request of `size` bytes: the request is rounded up to its
    /// power-of-two size class and a block of that class is taken off the
    /// free lists. Returns the block's start address, or `None` exactly when
    /// no free block of the class or any larger class exists.
    pub fn allocate(&mut self, size: usize) -> (r: Option<usize>)
        requires
            old(self).inv(),
            size as nat <= pow2((MAX_ORDER_EXCLUSIVE - 1) as nat),
        ensures
            final(self).inv(),
            final(self).heap_start == old(self).heap_start,
            final(self).heap_size == old(self).heap_size,
            final(self).initialized == old(self).initialized,
            r is Some <==> lowest_nonempty(old(self).free_list@, spec_order_index(size as nat))
                < LIST_SIZE,
            r is None ==> *final(self) == *old(self),
            r matches Some(addr) ==> ({
                let k = spec_order_index(size as nat);
                let cl = spec_clamped_size(size as nat);
                &&& addr == old(self).free_list@[lowest_nonempty(
                    old(self).free_list@,
                    k,
                )]@.last().start_addr
                &&& addr as int % cl as int == 0
                &&& old(self).heap_start <= addr
                &&& addr + cl <= old(self).heap_start + old(self).heap_size
                &&& !old(self).allocated@.contains((addr, k as usize))
                &&& final(self).allocated@ == old(self).allocated@.insert((addr, k as usize))
                &&& final(self).free_bytes() == old(self).free_bytes() - cl
                &&& ({
                    let j = lowest_nonempty(old(self).free_list@, k);
                    &&& final(self).free_list@[j]@ == old(self).free_list@[j]@.drop_last()
                    &&& (forall|m: int|
                        0 <= m < LIST_SIZE && !(k <= m <= j)
                            ==> (#[trigger] final(self).free_list@[m])@
                            == old(self).free_list@[m]@)
                    &&& (forall|m: int|
                        k <= m < j
                            ==> (#[trigger] final(self).free_list@[m])@
                            == old(self).free_list@[m]@.push(
                            AllocatorNode {
                                start_addr: (addr + block_size(m)) as usize,
                                size: block_size(m) as usize,
                                free_list_index: m as usize,
                            },
                        ))
                })
            }),
    {
        let clamped = get_clamped_size_from_layout(size);
        proof {
            lemma_pow2_strictly_increases(
                (MAX_ORDER_EXCLUSIVE - 1) as nat,
                MAX_ORDER_EXCLUSIVE as nat,
            );
            lemma_log2_mono(MIN_SIZE as nat, clamped as nat);
            lemma_log2_pow2(MIN_ORDER_INCLUSIVE as nat);
            lemma2_to64();
        }
        let k = free_list_index(clamped);
        proof {
            assert(k as int == spec_order_index(size as nat));
            assert(block_size(k as int) == spec_clamped_size(size as nat));
        }
        self.allocate_block(k)
    }

    /// Give back the block at `addr` that was obtained for a request of
    /// `size` bytes. The block is merged with its buddy while the buddy is
    /// free, and the merged block returns to the free lists.
    pub fn deallocate(&mut self, addr: usize, size: usize)
        requires
            old(self).inv(),
            size as nat <= pow2((MAX_ORDER_EXCLUSIVE - 1) as nat),
            old(self).allocated@.contains((addr, spec_order_index(size as nat) as usize)),
        ensures
            final(self).inv(),
            final(self).heap_start == old(self).heap_start,
            final(self).heap_size == old(self).heap_size,
            final(self).initialized == old(self).initialized,
            final(self).allocated@ == old(self).allocated@.remove(
                (addr, spec_order_index(size as nat) as usize),
            ),
            final(self).free_bytes() == old(self).free_bytes() + spec_clamped_size(size as nat),
            exists|m: int|
                spec_order_index(size as nat) <= m < LIST_SIZE && #[trigger] landed_at(
                    final(self).free_list@[m]@,
                    m,
                    addr as int,
                    spec_order_index(size as nat),
                ),
    {
        let clamped = get_clamped_size_from_layout(size);
        proof {
            lemma_pow2_strictly_increases(
                (MAX_ORDER_EXCLUSIVE - 1) as nat,
                MAX_ORDER_EXCLUSIVE as nat,
            );
            lemma_log2_mono(MIN_SIZE as nat, clamped as nat);
            lemma_log2_pow2(MIN_ORDER_INCLUSIVE as nat);
            lemma2_to64();
        }
        let k = free_list_index(clamped);
        proof {
            assert(k as int == spec_order_index(size as nat));
            assert(block_size(k as int) == spec_clamped_size(size as nat));
        }
        self.deallocate_block(addr, k)
    }

    /// Taking a block and giving it straight back leaves the amount of free
    /// memory and the set of allocated blocks exactly as they were.
    pub fn allocate_then_deallocate(&mut self, size: usize) -> (r: Option<usize>)
        requires
            old(self).inv(),
            size as nat <= pow2((MAX_ORDER_EXCLUSIVE - 1) as nat),
        ensures
            final(self).inv(),
            r is Some ==> final(self).free_bytes() == old(self).free_bytes()
                && final(self).allocated@ == old(self).allocated@,
            r is None ==> *final(self) == *old(self),
    {
        let ghost a0 = *self;
        let r = self.allocate(size);
        match r {
            Some(addr) => {
                self.deallocate(addr, size);
                proof {
                    assert(self.allocated@ =~= a0.allocated@);
                }
                Some(addr)
            },
            None => None,
        }
    }
}

/// Any two distinct currently-allocated blocks of a well-formed allocator
/// occupy disjoint address ranges, and every allocated block lies inside the
/// heap window.
pub proof fn law_allocated_blocks_disjoint(
    a: BuddyAllocator,
    p1: (usize, usize),
    p2: (usize, usize),
)
    requires
        a.inv(),
        a.allocated@.contains(p1),
        a.allocated@.contains(p2),
        p1 != p2,
    ensures
        blocks_disjoint(
            p1.0 as int,
            block_size(p1.1 as int) as int,
            p2.0 as int,
            block_size(p2.1 as int) as int,
        ),
        a.heap_start <= p1.0,
        p1.0 + block_size(p1.1 as int) <= a.heap_start + a.heap_size,
{
}

/// Every free block of a well-formed allocator starts at an address
/// divisible by its own size.
pub proof fn law_free_blocks_aligned(a: BuddyAllocator, i: int, j: int)
    requires
        a.inv(),
        0 <= i < a.free_list@.len(),
        0 <= j < a.free_list@[i]@.len(),
    ensures
        a.free_list@[i]@[j].size as nat == block_size(i),
        a.free_list@[i]@[j].start_addr as int % a.free_list@[i]@[j].size as int == 0,
{
    assert(a.node_wf(a.free_list@[i]@[j], i));
}

/// Exercises the allocator over a small window: a burst of allocations in
/// several size classes followed by releases in reverse order.
pub fn allocator_tests()
{
    proof {
        lemma2_to64();
    }
    let mut a = BuddyAllocator::new();
    a.init(0, 262144);
    let b1 = a.allocate(64);
    let b2 = a.allocate(200);
    let b3 = a.allocate(32);
    match b3 {
        Some(addr) => a.deallocate(addr, 32),
        None => (),
    }
    match b2 {
        Some(addr) => a.deallocate(addr, 200),
        None => (),
    }
    match b1 {
        Some(addr) => a.deallocate(addr, 64),
        None => (),
    }
}

/// Placeholder allocator used before the heap is armed: it has no memory to
/// hand out.
pub struct Dummy;

/// A deliberately large record used by the allocator smoke tests to force
/// multi-class allocations.
pub struct ReallyBigTestStruct {
    pub array: [usize; 20],
    pub vec: Vec<usize>,
    pub test: String,
    pub array3: [usize; 30],
    pub array2: [usize; 100],
    pub test_1: String,
}

impl ReallyBigTestStruct {
    /// A filled instance: fixed array contents and long text fields.
    pub fn new() -> (r: ReallyBigTestStruct)
        ensures
            r.array@.len() == 20,
            r.vec@.len() == 100,
            r.array2@.len() == 100,
            r.array3@.len() == 30,
    {
        let mut v: Vec<usize> = Vec::new();
        let mut i: usize = 0;
        while i < 100
            invariant
                v@.len() == i,
                i <= 100,
            decreases 100 - i,
        {
            v.push(20);
            i = i + 1;
        }
        ReallyBigTestStruct {
            array: [0; 20],
            array2: [20; 100],
            array3: [3; 30],
            test_1: "a long test string that the buddy allocator has to place".to_owned(),
            vec: v,
            test: "another long test string that the buddy allocator has to place".to_owned(),
        }
    }
}

} // verus!
