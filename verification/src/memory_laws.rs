use vstd::prelude::*;

use crate::memory::{
    frame_lookup_ok, frames_before, is_usable, lemma_usable_frames_prefix, lemma_usable_frames_step,
    nth_usable_frame, region_frame_count, region_frames,
    usable_frames, PhysRegion, RegionKind, PAGE_SIZE,
};

verus! {

/// The frame at `addr` lies inside region `region` and starts on a frame boundary.
pub open spec fn frame_in_region(addr: int, region: PhysRegion) -> bool {
    &&& region.range.start_frame_number * PAGE_SIZE <= addr
    &&& addr + PAGE_SIZE <= region.range.end_frame_number * PAGE_SIZE
    &&& addr % (PAGE_SIZE as int) == 0
}

/// Every usable frame is a whole 4 KiB frame inside a region that the
/// memory map marks usable.
pub proof fn lemma_usable_frame_in_usable_region(regions: Seq<PhysRegion>, n: int)
    requires
        0 <= n < usable_frames(regions).len(),
    ensures
        exists|i: int|
            0 <= i < regions.len() && is_usable(regions[i]) && frame_in_region(
                #[trigger] usable_frames(regions)[n],
                regions[i],
            ),
        exists|i: int|
            0 <= i < regions.len() && #[trigger] regions[i].region_type == RegionKind::Usable
                && regions[i].range.start_frame_number * 4096 <= usable_frames(regions)[n]
                && usable_frames(regions)[n] + 4096 <= regions[i].range.end_frame_number * 4096
                && usable_frames(regions)[n] % 4096 == 0,
    decreases regions.len(),
{
    let rest = regions.drop_last();
    let last = regions.last();
    let before = usable_frames(rest);
    if n < before.len() {
        lemma_usable_frame_in_usable_region(rest, n);
        let i = choose|i: int|
            0 <= i < rest.len() && is_usable(rest[i]) && frame_in_region(
                #[trigger] usable_frames(rest)[n],
                rest[i],
            );
        assert(regions[i] == rest[i]);
        assert(usable_frames(regions)[n] == before[n]);
    } else {
        let k = n - before.len();
        assert(usable_frames(regions)[n] == region_frames(last)[k]);
        let addr = (last.range.start_frame_number + k) * PAGE_SIZE;
        assert(region_frames(last)[k] == addr);
        assert(region_frame_count(last) > 0);
        assert(addr % (PAGE_SIZE as int) == 0) by (nonlinear_arith)
            requires
                addr == (last.range.start_frame_number + k) * PAGE_SIZE,
                k >= 0,
        ;
        assert(frame_in_region(usable_frames(regions)[n], regions[regions.len() - 1]));
    }
}

/// No two usable regions of `regions` share a frame.
pub open spec fn usable_regions_disjoint(regions: Seq<PhysRegion>) -> bool {
    forall|i: int, j: int|
        0 <= i < j < regions.len() && is_usable(#[trigger] regions[i]) && is_usable(
            #[trigger] regions[j],
        ) ==> regions[i].range.end_frame_number <= regions[j].range.start_frame_number
            || regions[j].range.end_frame_number <= regions[i].range.start_frame_number
}

/// When no two usable regions overlap, no frame is among the usable frames
/// twice, so the allocator never hands out one frame twice.
pub proof fn lemma_usable_frames_distinct(regions: Seq<PhysRegion>)
    requires
        usable_regions_disjoint(regions),
    ensures
        forall|a: int, b: int|
            0 <= a < b < usable_frames(regions).len() ==> #[trigger] usable_frames(regions)[a]
                != #[trigger] usable_frames(regions)[b],
    decreases regions.len(),
{
    if regions.len() > 0 {
        let rest = regions.drop_last();
        let last = regions.last();
        let before = usable_frames(rest);
        let all = usable_frames(regions);
        assert(usable_regions_disjoint(rest)) by {
            assert forall|i: int, j: int|
                0 <= i < j < rest.len() && is_usable(#[trigger] rest[i]) && is_usable(
                    #[trigger] rest[j],
                ) implies rest[i].range.end_frame_number <= rest[j].range.start_frame_number
                || rest[j].range.end_frame_number <= rest[i].range.start_frame_number by {
                assert(rest[i] == regions[i]);
                assert(rest[j] == regions[j]);
            }
        }
        lemma_usable_frames_distinct(rest);
        assert forall|a: int, b: int| 0 <= a < b < all.len() implies #[trigger] all[a]
            != #[trigger] all[b] by {
            if b < before.len() {
                assert(all[a] == before[a]);
                assert(all[b] == before[b]);
            } else if a >= before.len() {
                assert(all[a] == region_frames(last)[a - before.len()]);
                assert(all[b] == region_frames(last)[b - before.len()]);
            } else {
                assert(all[a] == before[a]);
                lemma_usable_frame_in_usable_region(rest, a);
                let i = choose|i: int|
                    0 <= i < rest.len() && is_usable(rest[i]) && frame_in_region(
                        #[trigger] usable_frames(rest)[a],
                        rest[i],
                    );
                assert(regions[i] == rest[i]);
                let k = b - before.len();
                assert(all[b] == region_frames(last)[k]);
                assert(region_frame_count(last) > 0);
                assert(is_usable(regions[i]) && is_usable(regions[regions.len() - 1]));
            }
        }
    }
}


/// Once the usable frames are used up, every later lookup finds nothing
/// either: an allocator that has returned `None` keeps returning `None`.
pub proof fn lemma_exhausted_stays_exhausted(regions: Seq<PhysRegion>, n: int, m: int)
    requires
        0 <= n <= m,
        nth_usable_frame(regions, n) is None,
    ensures
        nth_usable_frame(regions, m) is None,
{
}

/// A lookup that stays within the address limits for the `n`-th frame does
/// so for every earlier frame too.
pub proof fn lemma_frame_lookup_ok_earlier(regions: Seq<PhysRegion>, n: int, m: int)
    requires
        0 <= m <= n,
        frame_lookup_ok(regions, n),
    ensures
        frame_lookup_ok(regions, m),
{
    assert forall|i: int|
        0 <= i < regions.len() && is_usable(#[trigger] regions[i]) && frames_before(regions, i) <= m
            implies regions[i].range.start_frame_number * PAGE_SIZE <= u64::MAX
            && regions[i].range.end_frame_number * PAGE_SIZE <= u64::MAX by {
        assert(frames_before(regions, i) <= n);
    }
}


/// A region of any kind but `Usable` contributes no frames; a `Usable`
/// region contributes one frame for each of its frame numbers, in order.
pub proof fn lemma_region_frames_by_kind(region: PhysRegion)
    ensures
        region.region_type != RegionKind::Usable ==> region_frames(region).len() == 0,
        region.region_type == RegionKind::Usable && region.range.start_frame_number
            < region.range.end_frame_number ==> region_frames(region).len()
            == region.range.end_frame_number - region.range.start_frame_number,
        forall|k: int|
            0 <= k < region_frames(region).len() ==> #[trigger] region_frames(region)[k] == (
            region.range.start_frame_number + k) * 4096,
{
}

/// Every frame of every `Usable` region is among the usable frames, so the
/// allocator hands each of them out in turn.
pub proof fn lemma_usable_region_frames_handed_out(regions: Seq<PhysRegion>, i: int, k: int)
    requires
        0 <= i < regions.len(),
        regions[i].region_type == RegionKind::Usable,
        0 <= k,
        regions[i].range.start_frame_number + k < regions[i].range.end_frame_number,
    ensures
        exists|n: int|
            0 <= n < usable_frames(regions).len() && #[trigger] usable_frames(regions)[n] == (
            regions[i].range.start_frame_number + k) * 4096,
        frames_before(regions, i) + k < usable_frames(regions).len(),
        usable_frames(regions)[frames_before(regions, i) + k] == (regions[i].range.start_frame_number
            + k) * 4096,
{
    lemma_usable_frames_step(regions, i);
    lemma_usable_frames_prefix(regions, i + 1);
    let n = frames_before(regions, i) + k;
    assert(usable_frames(regions.take(i + 1))[n] == usable_frames(regions)[n]);
    assert(usable_frames(regions)[n] == (regions[i].range.start_frame_number + k) * 4096);
}


/// The frames come region by region in the order of the memory map: the
/// frames of the first `i` regions are `frames_before(regions, i)` in number
/// and come first, and an earlier region's frames precede a later one's.
pub proof fn lemma_frames_in_map_order(regions: Seq<PhysRegion>, i: int, j: int)
    requires
        0 <= i < j < regions.len(),
        regions[i].region_type == RegionKind::Usable,
        regions[j].region_type == RegionKind::Usable,
        regions[i].range.start_frame_number < regions[i].range.end_frame_number,
        regions[j].range.start_frame_number < regions[j].range.end_frame_number,
    ensures
        frames_before(regions, i) + (regions[i].range.end_frame_number
            - regions[i].range.start_frame_number) <= frames_before(regions, j),
{
    lemma_usable_frames_step(regions, i);
    lemma_usable_frames_prefix(regions.take(j), i + 1);
    assert(regions.take(j).take(i + 1) =~= regions.take(i + 1));
}

} // verus!
