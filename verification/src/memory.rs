//! Physical memory layout and the frame source.
//!
//! The frame source walks the firmware memory map: usable regions are
//! expanded into 4 KiB frame addresses, and a monotonic cursor hands each
//! frame out at most once. [`law_frames_distinct`] states that for a
//! well-formed memory map every two frames in the expansion differ, so two
//! calls of the source never return the same frame.

use vstd::prelude::*;
use crossbeam_queue::ArrayQueue;
use crate::queues::{id_queue_cap, id_queue_pop, id_queue_view};

verus! {

/// Bottom of the kernel heap window.
pub const HEAP_START: u64 = 0x4444_4444_0000;

/// Size of the kernel heap window in bytes.
pub const HEAP_SIZE: u64 = 10000 * 1024;

/// Bytes reserved for transient ACPI mappings, directly after the heap.
pub const ACPI_MEMORY_SIZE: u64 = 4 * 8 * 1024 * 2;

/// Bottom of the ACPI mapping window.
pub const ACPI_START_ADDRESS: u64 = HEAP_START + HEAP_SIZE + 1;

/// Stack bytes reserved per application processor: one 16 KiB slot each.
pub const PER_AP_STACK_STACK_SIZE: u64 = 16384;

/// Bottom of the application processors' stack area.
pub const AP_STACK_MEMORY_START: u64 = ACPI_START_ADDRESS + ACPI_MEMORY_SIZE;

/// Size of one physical frame.
pub const FRAME_SIZE: u64 = 4096;

/// One region of the firmware memory map, reduced to what the frame source
/// reads: its byte range and whether the firmware marked it usable.
#[derive(Clone, Copy, Debug, PartialEq, Eq, Structural)]
pub struct MemRegion {
    pub start: u64,
    pub end: u64,
    pub usable: bool,
}

/// Number of frame addresses the source derives from one region: one for
/// each multiple of the frame size from `start` that is still below `end`.
pub open spec fn region_frame_count(r: MemRegion) -> nat {
    if r.end <= r.start {
        0
    } else {
        (((r.end - r.start - 1) / (FRAME_SIZE as int)) + 1) as nat
    }
}

/// The frame addresses derived from one region: each raw address is rounded
/// down to its frame boundary.
pub open spec fn region_frames(r: MemRegion) -> Seq<int> {
    Seq::new(
        region_frame_count(r),
        |i: int|
            {
                let a = r.start + (FRAME_SIZE as int) * i;
                a - a % (FRAME_SIZE as int)
            },
    )
}

/// All frame addresses of a memory map, region by region, skipping regions
/// that are not usable.
pub open spec fn frames_of(regions: Seq<MemRegion>) -> Seq<int>
    decreases regions.len(),
{
    if regions.len() == 0 {
        Seq::empty()
    } else {
        (if regions[0].usable {
            region_frames(regions[0])
        } else {
            Seq::empty()
        }) + frames_of(regions.drop_first())
    }
}

/// A well-formed firmware memory map: every region starts on a frame
/// boundary and no two regions overlap.
pub open spec fn regions_wf(regions: Seq<MemRegion>) -> bool {
    &&& forall|i: int|
        0 <= i < regions.len() ==> (#[trigger] regions[i]).start as int % (FRAME_SIZE as int) == 0
    &&& forall|i: int, j: int|
        0 <= i < regions.len() && 0 <= j < regions.len() && i != j ==> ((#[trigger] regions[i]).end
            <= (#[trigger] regions[j]).start || regions[j].end <= regions[i].start)
}

/// The frame source: the firmware memory map and a cursor that only ever
/// advances. Each frame is handed out at most once and never reclaimed.
pub struct StaticFrameAllocator {
    pub regions: Vec<MemRegion>,
    pub next: usize,
}

impl StaticFrameAllocator {
    /// The full expansion of the memory map into frame addresses.
    pub open spec fn frame_seq(self) -> Seq<int> {
        frames_of(self.regions@)
    }

    /// A source at the start of the map.
    pub fn new(regions: Vec<MemRegion>) -> (r: StaticFrameAllocator)
        ensures
            r.regions@ == regions@,
            r.next == 0,
    {
        StaticFrameAllocator { regions, next: 0 }
    }

    /// Hand out the frame the cursor points at. The cursor advances whether
    /// or not a frame is left, so no frame is ever returned twice.
    pub fn allocate_frame(&mut self) -> (r: Option<u64>)
        requires
            old(self).next < usize::MAX,
        ensures
            final(self).regions@ == old(self).regions@,
            final(self).next == old(self).next + 1,
            old(self).next < old(self).frame_seq().len() ==> (r matches Some(f) && f as int
                == old(self).frame_seq()[old(self).next as int]),
            old(self).next >= old(self).frame_seq().len() ==> r is None,
    {
        let ghost all = frames_of(self.regions@);
        let ghost n = self.next as int;
        let mut rem: u64 = self.next as u64;
        let mut i: usize = 0;
        let mut found: Option<u64> = None;
        let mut done: bool = false;
        proof {
            assert(self.regions@.skip(0) =~= self.regions@);
        }
        while !done && i < self.regions.len()
            invariant
                i <= self.regions@.len(),
                all == frames_of(self.regions@),
                n == self.next,
                self.next < usize::MAX,
                !done ==> found is None,
                !done ==> rem <= n,
                !done ==> n - rem == all.len() - frames_of(self.regions@.skip(i as int)).len(),
                !done ==> ((rem as int) < frames_of(self.regions@.skip(i as int)).len() <==> n
                    < all.len()),
                !done && n < all.len() ==> all[n] == frames_of(self.regions@.skip(i as int))[
                rem as int],
                done ==> n < all.len() && (found matches Some(f) && f as int == all[n]),
            decreases self.regions@.len() - i, (if done { 0int } else { 1int }),
        {
            let region = self.regions[i];
            proof {
                lemma_frames_skip_unfold(self.regions@, i as int);
            }
            if region.usable && region.end > region.start {
                let count: u64 = (region.end - region.start - 1) / FRAME_SIZE + 1;
                proof {
                    assert(count == region_frame_count(region));
                    assert(region_frames(region).len() == count);
                    if rem < count {
                        // The raw address stays below the region's end, so the
                        // arithmetic below cannot overflow.
                        vstd::arithmetic::div_mod::lemma_fundamental_div_mod(
                            region.end as int - region.start as int - 1,
                            FRAME_SIZE as int,
                        );
                        assert((FRAME_SIZE as int) * (rem as int) <= (FRAME_SIZE as int) * (
                        count as int - 1)) by (nonlinear_arith)
                            requires
                                0 <= rem as int <= count as int - 1,
                                FRAME_SIZE as int >= 0,
                        ;
                        assert((FRAME_SIZE as int) * (count as int - 1) <= region.end as int
                            - region.start as int - 1) by (nonlinear_arith)
                            requires
                                count as int - 1 == (region.end as int - region.start as int - 1)
                                    / (FRAME_SIZE as int),
                                region.end > region.start,
                                FRAME_SIZE as int > 0,
                        ;
                        assert(region.start + (FRAME_SIZE as int) * (rem as int) < region.end);
                    }
                }
                if rem < count {
                    let a = region.start + FRAME_SIZE * rem;
                    let f = a - a % FRAME_SIZE;
                    proof {
                        assert(region_frames(region)[rem as int] == f as int);
                        assert(frames_of(self.regions@.skip(i as int))[rem as int] == f as int);
                    }
                    found = Some(f);
                    done = true;
                } else {
                    rem = rem - count;
                    proof {
                        assert(frames_of(self.regions@.skip(i as int)).skip(count as int)
                            =~= frames_of(self.regions@.skip(i as int + 1)));
                    }
                    i = i + 1;
                }
            } else {
                proof {
                    if region.usable {
                        assert(region_frames(region).len() == 0);
                        assert(region_frames(region) + frames_of(self.regions@.skip(i as int + 1))
                            =~= frames_of(self.regions@.skip(i as int + 1)));
                    } else {
                        assert(Seq::<int>::empty() + frames_of(self.regions@.skip(i as int + 1))
                            =~= frames_of(self.regions@.skip(i as int + 1)));
                    }
                }
                i = i + 1;
            }
        }
        proof {
            if !done {
                assert(self.regions@.skip(i as int) =~= Seq::<MemRegion>::empty());
                assert(frames_of(Seq::<MemRegion>::empty()).len() == 0);
            }
        }
        self.next = self.next + 1;
        found
    }
}

/// The 4 KiB pages covering the byte range `[start, start + size)`: the page
/// containing the first byte, and how many pages up to and including the one
/// containing the last byte. This is the computation behind every mapping
/// loop (heap window, ACPI window, MMIO pages, processor stacks).
pub fn page_range(start: u64, size: u64) -> (r: (u64, u64))
    requires
        size >= 1,
        start + size - 1 <= u64::MAX,
    ensures
        r.0 == start - (start as int % (FRAME_SIZE as int)),
        r.0 as int % (FRAME_SIZE as int) == 0,
        ({
            let last = start + size - 1;
            r.1 == (last / (FRAME_SIZE as int) - start as int / (FRAME_SIZE as int)) + 1
        }),
{
    let first_page: u64 = start - start % FRAME_SIZE;
    let last: u64 = start + (size - 1);
    let count: u64 = last / FRAME_SIZE - start / FRAME_SIZE + 1;
    proof {
        vstd::arithmetic::div_mod::lemma_fundamental_div_mod(start as int, FRAME_SIZE as int);
        vstd::arithmetic::div_mod::lemma_mod_bound(start as int, FRAME_SIZE as int);
        assert(start as int / (FRAME_SIZE as int) <= last as int / (FRAME_SIZE as int)) by {
            vstd::arithmetic::div_mod::lemma_div_is_ordered(
                start as int,
                last as int,
                FRAME_SIZE as int,
            );
        }
        assert((start as int - start as int % (FRAME_SIZE as int)) % (FRAME_SIZE as int) == 0) by {
            vstd::arithmetic::div_mod::lemma_mod_multiples_basic(
                start as int / (FRAME_SIZE as int),
                FRAME_SIZE as int,
            );
            assert(start as int - start as int % (FRAME_SIZE as int) == (FRAME_SIZE as int) * (
            start as int / (FRAME_SIZE as int)));
        }
    }
    (first_page, count)
}

/// Plan the mappings that back the byte range `[start, start + size)`: one
/// page per 4 KiB step, each paired with the next fresh frame from the
/// source, in page order. Succeeds exactly when the source still holds a
/// frame for every page; the cursor never moves backwards.
pub fn plan_mappings(frames: &mut StaticFrameAllocator, start: u64, size: u64) -> (r: Result<
    Vec<(u64, u64)>,
    &'static str,
>)
    requires
        size >= 1,
        start + size - 1 <= u64::MAX,
        old(frames).next + (((start + size - 1) as int) / (FRAME_SIZE as int) - (start as int) / (
        FRAME_SIZE as int)) + 1 <= usize::MAX,
    ensures
        final(frames).regions@ == old(frames).regions@,
        final(frames).next >= old(frames).next,
        ({
            let count = (((start + size - 1) as int) / (FRAME_SIZE as int) - (start as int) / (
            FRAME_SIZE as int)) + 1;
            let first_page = start - (start as int) % (FRAME_SIZE as int);
            &&& (r is Ok <==> old(frames).next + count <= old(frames).frame_seq().len())
            &&& (r matches Ok(v) ==> v@.len() == count && final(frames).next == old(frames).next
                + count && (forall|i: int|
                0 <= i < count ==> (#[trigger] v@[i]).0 == first_page + i * (FRAME_SIZE as int)
                    && v@[i].1 as int == old(frames).frame_seq()[old(frames).next + i]))
        }),
{
    let (first_page, count) = page_range(start, size);
    proof {
        vstd::arithmetic::div_mod::lemma_fundamental_div_mod(start as int, FRAME_SIZE as int);
        vstd::arithmetic::div_mod::lemma_fundamental_div_mod(
            (start + size - 1) as int,
            FRAME_SIZE as int,
        );
        vstd::arithmetic::div_mod::lemma_mod_bound((start + size - 1) as int, FRAME_SIZE as int);
        vstd::arithmetic::div_mod::lemma_mod_bound(start as int, FRAME_SIZE as int);
        vstd::arithmetic::div_mod::lemma_div_is_ordered(
            start as int,
            (start + size - 1) as int,
            FRAME_SIZE as int,
        );
        assert(first_page as int == (FRAME_SIZE as int) * ((start as int) / (FRAME_SIZE as int)));
        assert(first_page + (count - 1) * FRAME_SIZE == (FRAME_SIZE as int) * (((start + size
            - 1) as int) / (FRAME_SIZE as int)));
    }
    let mut v: Vec<(u64, u64)> = Vec::new();
    let mut i: u64 = 0;
    while i < count
        invariant
            frames.regions@ == old(frames).regions@,
            frames.next == old(frames).next + i,
            i <= count,
            old(frames).next + count <= usize::MAX,
            count >= 1,
            size >= 1,
            start + size - 1 <= u64::MAX,
            i > 0 ==> old(frames).next + i <= old(frames).frame_seq().len(),
            first_page == start - (start as int) % (FRAME_SIZE as int),
            first_page as int == (FRAME_SIZE as int) * ((start as int) / (FRAME_SIZE as int)),
            count == (((start + size - 1) as int) / (FRAME_SIZE as int) - (start as int) / (
            FRAME_SIZE as int)) + 1,
            first_page + (count - 1) * FRAME_SIZE <= start + size - 1,
            v@.len() == i,
            forall|q: int|
                0 <= q < i ==> (#[trigger] v@[q]).0 == first_page + q * (FRAME_SIZE as int)
                    && v@[q].1 as int == old(frames).frame_seq()[old(frames).next + q],
        decreases count - i,
    {
        match frames.allocate_frame() {
            Some(frame) => {
                proof {
                    assert(i * FRAME_SIZE <= (count - 1) * FRAME_SIZE) by (nonlinear_arith)
                        requires
                            0 <= i <= count - 1,
                            FRAME_SIZE as int >= 0,
                    ;
                    assert(i * FRAME_SIZE >= 0) by (nonlinear_arith)
                        requires
                            i >= 0,
                            FRAME_SIZE as int >= 0,
                    ;
                    assert(first_page + i * FRAME_SIZE <= start + size - 1);
                    assert(i * FRAME_SIZE <= u64::MAX);
                    assert(first_page + i * FRAME_SIZE <= u64::MAX);
                }
                let page: u64 = first_page + i * FRAME_SIZE;
                v.push((page, frame));
                i = i + 1;
            },
            None => {
                return Err("frame source exhausted");
            },
        }
    }
    Ok(v)
}

/// One step of the ACPI mapping handler: take the oldest page from the
/// mapping pool and pair it with the frame containing the physical address.
/// `None` exactly when the pool is exhausted, which the boot code treats as
/// fatal.
pub fn acpi_map_step(pool: &mut ArrayQueue<u64>, physical_address: u64) -> (r: Option<(u64, u64)>)
    ensures
        id_queue_cap(*final(pool)) == id_queue_cap(*old(pool)),
        id_queue_view(*old(pool)).len() == 0 ==> r is None && id_queue_view(*final(pool))
            == id_queue_view(*old(pool)),
        id_queue_view(*old(pool)).len() > 0 ==> (r matches Some(p) && p.0 == id_queue_view(
            *old(pool),
        )[0] && p.1 == physical_address - physical_address % FRAME_SIZE && id_queue_view(
            *final(pool),
        ) == id_queue_view(*old(pool)).drop_first()),
{
    match id_queue_pop(pool) {
        Some(page) => Some((page, physical_address - physical_address % FRAME_SIZE)),
        None => None,
    }
}

/// In a region that starts on a frame boundary, the `k`-th frame is exactly
/// `start + k * FRAME_SIZE` and lies inside the region.
proof fn lemma_region_frames_bounds(r: MemRegion, k: int)
    requires
        r.start as int % (FRAME_SIZE as int) == 0,
        0 <= k < region_frames(r).len(),
    ensures
        region_frames(r)[k] == r.start + (FRAME_SIZE as int) * k,
        r.start <= region_frames(r)[k] < r.end,
{
    let fs = FRAME_SIZE as int;
    let a = r.start + fs * k;
    vstd::arithmetic::div_mod::lemma_mod_multiples_vanish(k, r.start as int, fs);
    assert(a % fs == r.start as int % fs);
    assert(fs * k >= 0) by (nonlinear_arith)
        requires
            fs >= 0,
            k >= 0,
    ;
    let count = region_frame_count(r) as int;
    vstd::arithmetic::div_mod::lemma_fundamental_div_mod(r.end as int - r.start as int - 1, fs);
    assert(fs * k <= fs * (count - 1)) by (nonlinear_arith)
        requires
            0 <= k <= count - 1,
            fs >= 0,
    ;
    assert(fs * (count - 1) <= r.end as int - r.start as int - 1) by (nonlinear_arith)
        requires
            count - 1 == (r.end as int - r.start as int - 1) / fs,
            r.end > r.start,
            fs > 0,
    ;
}

/// Dropping the first region keeps the memory map well formed.
proof fn lemma_wf_drop(s: Seq<MemRegion>)
    requires
        regions_wf(s),
        s.len() > 0,
    ensures
        regions_wf(s.drop_first()),
{
    let t = s.drop_first();
    assert forall|i: int| 0 <= i < t.len() implies (#[trigger] t[i]).start as int % (
    FRAME_SIZE as int) == 0 by {
        assert(t[i] == s[i + 1]);
    }
    assert forall|i: int, j: int| 0 <= i < t.len() && 0 <= j < t.len() && i != j implies ((
    #[trigger] t[i]).end <= (#[trigger] t[j]).start || t[j].end <= t[i].start) by {
        assert(t[i] == s[i + 1]);
        assert(t[j] == s[j + 1]);
    }
}

/// Every frame in the expansion of a well-formed map lies inside one of the
/// map's usable regions.
proof fn lemma_frame_in_some_region(s: Seq<MemRegion>, k: int)
    requires
        regions_wf(s),
        0 <= k < frames_of(s).len(),
    ensures
        exists|m: int|
            0 <= m < s.len() && (#[trigger] s[m]).usable && s[m].start <= frames_of(s)[k]
                < s[m].end,
    decreases s.len(),
{
    let head = s[0];
    let hf_len: int = if head.usable {
        region_frames(head).len() as int
    } else {
        0
    };
    if k < hf_len {
        lemma_region_frames_bounds(head, k);
        assert(s[0].usable && s[0].start <= frames_of(s)[k] < s[0].end);
    } else {
        lemma_wf_drop(s);
        lemma_frame_in_some_region(s.drop_first(), k - hf_len);
        let m = choose|m: int|
            0 <= m < s.drop_first().len() && (#[trigger] s.drop_first()[m]).usable
                && s.drop_first()[m].start <= frames_of(s.drop_first())[k - hf_len]
                < s.drop_first()[m].end;
        assert(s.drop_first()[m] == s[m + 1]);
        assert(frames_of(s)[k] == frames_of(s.drop_first())[k - hf_len]);
        assert(0 <= m + 1 < s.len() && (s[m + 1]).usable && s[m + 1].start <= frames_of(s)[k] < s[
            m + 1].end);
    }
}

/// Frame uniqueness: for a well-formed memory map, every two frames in the
/// expansion differ, so two calls of the frame source never return the same
/// frame address.
pub proof fn law_frames_distinct(s: Seq<MemRegion>, i: int, j: int)
    requires
        regions_wf(s),
        0 <= i < j < frames_of(s).len(),
    ensures
        frames_of(s)[i] != frames_of(s)[j],
    decreases s.len(),
{
    let head = s[0];
    let hf_len: int = if head.usable {
        region_frames(head).len() as int
    } else {
        0
    };
    if j < hf_len {
        lemma_region_frames_bounds(head, i);
        lemma_region_frames_bounds(head, j);
        assert((FRAME_SIZE as int) * i < (FRAME_SIZE as int) * j) by (nonlinear_arith)
            requires
                0 <= i < j,
                FRAME_SIZE as int > 0,
        ;
    } else if i < hf_len {
        lemma_region_frames_bounds(head, i);
        lemma_wf_drop(s);
        lemma_frame_in_some_region(s.drop_first(), j - hf_len);
        let m = choose|m: int|
            0 <= m < s.drop_first().len() && (#[trigger] s.drop_first()[m]).usable
                && s.drop_first()[m].start <= frames_of(s.drop_first())[j - hf_len]
                < s.drop_first()[m].end;
        assert(s.drop_first()[m] == s[m + 1]);
        // Region 0 and region m + 1 do not overlap, so a frame of each differ.
        assert(s[0].end <= s[m + 1].start || s[m + 1].end <= s[0].start);
        assert(frames_of(s)[j] == frames_of(s.drop_first())[j - hf_len]);
    } else {
        lemma_wf_drop(s);
        law_frames_distinct(s.drop_first(), i - hf_len, j - hf_len);
        assert(frames_of(s)[i] == frames_of(s.drop_first())[i - hf_len]);
        assert(frames_of(s)[j] == frames_of(s.drop_first())[j - hf_len]);
    }
}

/// Unfolding step for `frames_of` over a suffix of the region list.
proof fn lemma_frames_skip_unfold(regions: Seq<MemRegion>, i: int)
    requires
        0 <= i < regions.len(),
    ensures
        frames_of(regions.skip(i)) == (if regions[i].usable {
            region_frames(regions[i])
        } else {
            Seq::<int>::empty()
        }) + frames_of(regions.skip(i + 1)),
{
    assert(regions.skip(i).len() > 0);
    assert(regions.skip(i)[0] == regions[i]);
    assert(regions.skip(i).drop_first() =~= regions.skip(i + 1));
}

} // verus!
