use bootloader::bootinfo::MemoryMap;
use bootloader::bootinfo::MemoryRegionType as BootRegionType;
use vstd::prelude::*;
use x86_64::structures::paging::{PhysFrame, Size4KiB};
use x86_64::{PhysAddr, VirtAddr};

use crate::memory_laws::lemma_usable_frame_in_usable_region;

verus! {

/// Size of a 4 KiB frame, in bytes.
pub const PAGE_SIZE: u64 = 4096;

/// Physical addresses lie below this bound: bits 52 to 64 are always clear.
pub const PHYS_ADDR_LIMIT: u64 = 0x10_0000_0000_0000;

/// A range of 4 KiB frames with an exclusive upper bound.
#[derive(Debug, Clone, Copy, PartialEq, Eq, Structural)]
pub struct FrameRange {
    /// The number of the first frame of the range.
    pub start_frame_number: u64,
    /// The number of the first frame after the range.
    pub end_frame_number: u64,
}

impl FrameRange {
    /// The physical address of the first byte of the range.
    pub fn start_addr(&self) -> (addr: u64)
        requires
            self.start_frame_number * PAGE_SIZE <= u64::MAX,
        ensures
            addr == self.start_frame_number * PAGE_SIZE,
    {
        self.start_frame_number * PAGE_SIZE
    }

    /// The physical address of the first byte after the range.
    pub fn end_addr(&self) -> (addr: u64)
        requires
            self.end_frame_number * PAGE_SIZE <= u64::MAX,
        ensures
            addr == self.end_frame_number * PAGE_SIZE,
    {
        self.end_frame_number * PAGE_SIZE
    }
}

/// What a region of physical memory is used for, as the bootloader reports it.
#[derive(Debug, Clone, Copy, PartialEq, Eq, Structural)]
pub enum RegionKind {
    /// Unused memory, free for the kernel.
    Usable,
    /// Memory that is already in use.
    InUse,
    /// Memory reserved by the hardware.
    Reserved,
    /// ACPI reclaimable memory.
    AcpiReclaimable,
    /// ACPI NVS memory.
    AcpiNvs,
    /// Bad memory.
    BadMemory,
    /// Memory holding the kernel.
    Kernel,
    /// Memory holding the kernel stack.
    KernelStack,
    /// Memory holding page tables.
    PageTable,
    /// Memory used by the bootloader.
    Bootloader,
    /// The frame at address zero.
    FrameZero,
    /// An empty region.
    Empty,
    /// Memory holding the boot information.
    BootInfo,
    /// Memory holding the supplied package.
    Package,
    /// Any kind that a later bootloader may add.
    NonExhaustive,
}

/// A region of physical memory and what it is used for.
#[derive(Debug, Clone, Copy, PartialEq, Eq, Structural)]
pub struct PhysRegion {
    pub range: FrameRange,
    pub region_type: RegionKind,
}

/// The bootloader's memory map, `bootloader::bootinfo::MemoryMap`: opaque
/// here; what it lists is `memory_map_regions`.
#[verifier::external_type_specification]
#[verifier::external_body]
pub struct ExMemoryMap(bootloader::bootinfo::MemoryMap);

/// The bootloader's region type, `bootloader::bootinfo::MemoryRegion`, which
/// the memory map's `Deref` hands out: opaque here, and read only inside
/// `memory_map_region`.
#[verifier::external_type_specification]
#[verifier::external_body]
pub struct ExBootMemoryRegion(bootloader::bootinfo::MemoryRegion);

/// The regions that a bootloader memory map lists, in its order.
pub uninterp spec fn memory_map_regions(map: MemoryMap) -> Seq<PhysRegion>;

/// The number of regions in `map`, read through the map's `Deref` to a
/// slice of regions: the length of the listed regions.
#[verifier::external_body]
fn memory_map_len(map: &MemoryMap) -> (n: usize)
    ensures
        n == memory_map_regions(*map).len(),
{
    map.len()
}

/// Region `i` of `map`, read through the map's `Deref` to a slice of
/// regions and copied field by field into the library's own region type.
#[verifier::external_body]
fn memory_map_region(map: &MemoryMap, i: usize) -> (region: PhysRegion)
    requires
        i < memory_map_regions(*map).len(),
    ensures
        region == memory_map_regions(*map)[i as int],
{
    let r = map[i];
    let region_type = match r.region_type {
        BootRegionType::Usable => RegionKind::Usable, BootRegionType::InUse => RegionKind::InUse, BootRegionType::Reserved => RegionKind::Reserved,
        BootRegionType::AcpiReclaimable => RegionKind::AcpiReclaimable, BootRegionType::AcpiNvs => RegionKind::AcpiNvs, BootRegionType::BadMemory => RegionKind::BadMemory,
        BootRegionType::Kernel => RegionKind::Kernel, BootRegionType::KernelStack => RegionKind::KernelStack, BootRegionType::PageTable => RegionKind::PageTable,
        BootRegionType::Bootloader => RegionKind::Bootloader, BootRegionType::FrameZero => RegionKind::FrameZero, BootRegionType::Empty => RegionKind::Empty,
        BootRegionType::BootInfo => RegionKind::BootInfo, BootRegionType::Package => RegionKind::Package, BootRegionType::NonExhaustive => RegionKind::NonExhaustive,
    };
    let range = FrameRange { start_frame_number: r.range.start_frame_number, end_frame_number: r.range.end_frame_number };
    PhysRegion { range, region_type }
}


/// The start address of the 4 KiB frame that holds `addr`: `addr` rounded
/// down to a multiple of `PAGE_SIZE`.
pub open spec fn containing_frame_start(addr: int) -> int {
    addr - addr % (PAGE_SIZE as int)
}

/// `PhysFrame::<Size4KiB>::containing_address(PhysAddr::new(addr))`, as the
/// frame's start address. `PhysAddr::new` panics unless `addr` is below
/// `PHYS_ADDR_LIMIT`; `containing_address` aligns the address down to the
/// frame size.
#[verifier::external_body]
fn phys_frame_containing(addr: u64) -> (start: u64)
    requires
        addr < PHYS_ADDR_LIMIT,
    ensures
        start == containing_frame_start(addr as int),
{
    PhysFrame::<Size4KiB>::containing_address(PhysAddr::new(addr)).start_address().as_u64()
}

/// The start address of the 4 KiB frame that contains the physical address
/// `addr`.
pub fn frame_containing_address(addr: u64) -> (start: u64)
    requires
        addr < PHYS_ADDR_LIMIT,
    ensures
        start == containing_frame_start(addr as int),
        start % 4096 == 0,
        start <= addr < start + 4096,
{
    phys_frame_containing(addr)
}

/// A region is handed out only when the bootloader reports it unused.
pub open spec fn is_usable(region: PhysRegion) -> bool {
    region.region_type == RegionKind::Usable
}

/// Number of 4 KiB frames that a region contributes to the usable frames.
pub open spec fn region_frame_count(region: PhysRegion) -> nat {
    if is_usable(region) && region.range.start_frame_number < region.range.end_frame_number {
        (region.range.end_frame_number - region.range.start_frame_number) as nat
    } else {
        0
    }
}

/// Start addresses of the frames that a region contributes, lowest first.
pub open spec fn region_frames(region: PhysRegion) -> Seq<int> {
    Seq::new(
        region_frame_count(region),
        |k: int| (region.range.start_frame_number + k) * PAGE_SIZE,
    )
}

/// Start addresses of all usable frames: those of each usable region, in
/// the order of the regions.
pub open spec fn usable_frames(regions: Seq<PhysRegion>) -> Seq<int>
    decreases regions.len(),
{
    if regions.len() == 0 {
        Seq::empty()
    } else {
        usable_frames(regions.drop_last()) + region_frames(regions.last())
    }
}

/// The `n`-th usable frame, if there are more than `n`.
pub open spec fn nth_usable_frame(regions: Seq<PhysRegion>, n: int) -> Option<u64> {
    if 0 <= n < usable_frames(regions).len() {
        Some(usable_frames(regions)[n] as u64)
    } else {
        None
    }
}

/// Number of usable frames in the regions before region `i`.
pub open spec fn frames_before(regions: Seq<PhysRegion>, i: int) -> nat {
    usable_frames(regions.take(i)).len()
}

/// Looking up the `n`-th usable frame visits every usable region that starts
/// at or before it, and creates every frame up to it: the addresses of the
/// visited regions fit in 64 bits and the frames lie below `PHYS_ADDR_LIMIT`.
pub open spec fn frame_lookup_ok(regions: Seq<PhysRegion>, n: int) -> bool {
    &&& forall|i: int|
        0 <= i < regions.len() && is_usable(#[trigger] regions[i]) && frames_before(regions, i) <= n
            ==> regions[i].range.start_frame_number * PAGE_SIZE <= u64::MAX
            && regions[i].range.end_frame_number * PAGE_SIZE <= u64::MAX
    &&& forall|j: int|
        0 <= j <= n && j < usable_frames(regions).len() ==> #[trigger] usable_frames(regions)[j]
            < PHYS_ADDR_LIMIT
}

/// The usable frames of the first `i` regions are the first frames of all.
pub proof fn lemma_usable_frames_prefix(regions: Seq<PhysRegion>, i: int)
    requires
        0 <= i <= regions.len(),
    ensures
        usable_frames(regions.take(i)).len() <= usable_frames(regions).len(),
        forall|j: int|
            0 <= j < usable_frames(regions.take(i)).len() ==> #[trigger] usable_frames(
                regions.take(i),
            )[j] == usable_frames(regions)[j],
    decreases regions.len(),
{
    if i == regions.len() {
        assert(regions.take(i) =~= regions);
    } else {
        let rest = regions.drop_last();
        assert(regions.take(i) =~= rest.take(i));
        lemma_usable_frames_prefix(rest, i);
    }
}

/// Once the regions before `i` hold more than `n` usable frames, the
/// conditions of `frame_lookup_ok` on those regions and frames are all of them.
proof fn lemma_frame_lookup_ok_beyond(regions: Seq<PhysRegion>, n: int, i: int)
    requires
        0 <= i <= regions.len(),
        frames_before(regions, i) > n,
        forall|i2: int|
            0 <= i2 < i && is_usable(#[trigger] regions[i2]) && frames_before(regions, i2) <= n
                ==> regions[i2].range.start_frame_number * PAGE_SIZE <= u64::MAX
                && regions[i2].range.end_frame_number * PAGE_SIZE <= u64::MAX,
        forall|j: int|
            0 <= j <= n && j < frames_before(regions, i) ==> #[trigger] usable_frames(regions)[j]
                < PHYS_ADDR_LIMIT,
    ensures
        frame_lookup_ok(regions, n),
{
    lemma_usable_frames_prefix(regions, i);
    assert forall|i2: int|
        i <= i2 < regions.len() implies #[trigger] frames_before(regions, i2) > n by {
        lemma_usable_frames_prefix(regions.take(i2), i);
        assert(regions.take(i2).take(i) =~= regions.take(i));
    }
}

/// The usable frames of the first `i + 1` regions are those of the first `i`
/// followed by those of region `i`.
pub proof fn lemma_usable_frames_step(regions: Seq<PhysRegion>, i: int)
    requires
        0 <= i < regions.len(),
    ensures
        usable_frames(regions.take(i + 1)) == usable_frames(regions.take(i)) + region_frames(
            regions[i],
        ),
{
    assert(regions.take(i + 1).drop_last() =~= regions.take(i));
}


/// A frame allocator that never has a frame to give.
pub struct EmptyFrameAllocator;

impl EmptyFrameAllocator {
    /// Always `None`.
    pub fn allocate_frame(&mut self) -> (frame: Option<u64>)
        ensures
            frame is None,
    {
        None
    }
}

/// A frame allocator that hands out the usable frames of the bootloader's
/// memory map one after the other, by their start addresses.
pub struct BootInfoFrameAllocator {
    memory_map: &'static MemoryMap,
    next: usize,
}

impl BootInfoFrameAllocator {
    /// The regions of the memory map that the allocator draws from.
    pub closed spec fn regions(&self) -> Seq<PhysRegion> {
        memory_map_regions(*self.memory_map)
    }

    /// How many frames the allocator has handed out so far: the index of the
    /// usable frame that it hands out next.
    pub closed spec fn next_index(&self) -> int {
        self.next as int
    }

    /// An allocator over the regions of `memory_map` that has handed out
    /// nothing yet. The frames that the map marks usable must really be
    /// unused: the allocator hands each of them out.
    pub fn init(memory_map: &'static MemoryMap) -> (allocator: Self)
        ensures
            allocator.regions() == memory_map_regions(*memory_map),
            allocator.next_index() == 0,
    {
        BootInfoFrameAllocator { memory_map, next: 0 }
    }

    /// The start address of the `n`-th usable frame of the memory map, if it
    /// has more than `n`.
    pub fn usable_frame(&self, n: usize) -> (frame: Option<u64>)
        requires
            frame_lookup_ok(self.regions(), n as int),
        ensures
            frame == nth_usable_frame(self.regions(), n as int),
            frame matches Some(f) ==> exists|i: int|
                0 <= i < self.regions().len() && #[trigger] self.regions()[i].region_type
                    == RegionKind::Usable && self.regions()[i].range.start_frame_number * 4096 <= f
                    && f + 4096 <= self.regions()[i].range.end_frame_number * 4096 && f % 4096 == 0,
    {
        let ghost regions = self.regions();
        proof {
            if (n as int) < usable_frames(regions).len() {
                lemma_usable_frame_in_usable_region(regions, n as int);
            }
        }
        let len = memory_map_len(self.memory_map);
        let mut skip: usize = n;
        let mut i: usize = 0;
        while i < len
            invariant
                regions == self.regions(),
                len == regions.len(),
                frame_lookup_ok(regions, n as int),
                i <= len,
                frames_before(regions, i as int) <= n,
                skip == n - frames_before(regions, i as int),
            decreases len - i,
        {
            let region = memory_map_region(self.memory_map, i);
            proof {
                lemma_usable_frames_step(regions, i as int);
                lemma_usable_frames_prefix(regions, i as int + 1);
            }
            if region.region_type == RegionKind::Usable
                && region.range.start_frame_number < region.range.end_frame_number {
                let count = region.range.end_frame_number - region.range.start_frame_number;
                if (skip as u64) < count {
                    let start = region.range.start_addr();
                    let ghost idx = frames_before(regions, i as int) + skip;
                    assert(usable_frames(regions.take(i + 1))[idx] == usable_frames(regions)[idx]);
                    assert(usable_frames(regions)[idx] == (region.range.start_frame_number + skip) * PAGE_SIZE);
                    let addr = start + (skip as u64) * PAGE_SIZE;
                    let frame = phys_frame_containing(addr);
                    assert(addr % PAGE_SIZE == 0) by {
                        assert(addr == (region.range.start_frame_number + skip) * 4096);
                    }
                    return Some(frame);
                }
                skip = skip - (count as usize);
            }
            i += 1;
        }
        assert(regions.take(len as int) =~= regions);
        None
    }

    /// Whether looking up the `n`-th usable frame stays within the address
    /// limits (see `frame_lookup_ok`).
    #[verifier::spinoff_prover]
    #[verifier::rlimit(40)]
    pub fn frame_lookup_safe(&self, n: usize) -> (ok: bool)
        ensures
            ok == frame_lookup_ok(self.regions(), n as int),
    {
        let ghost regions = self.regions();
        let len = memory_map_len(self.memory_map);
        let mut before: u64 = 0;
        let mut i: usize = 0;
        while i < len
            invariant
                regions == self.regions(),
                len == regions.len(),
                i <= len,
                before == frames_before(regions, i as int),
                before <= n,
                forall|i2: int|
                    0 <= i2 < i && is_usable(#[trigger] regions[i2]) && frames_before(regions, i2)
                        <= n ==> regions[i2].range.start_frame_number * PAGE_SIZE <= u64::MAX
                        && regions[i2].range.end_frame_number * PAGE_SIZE <= u64::MAX,
                forall|j: int|
                    0 <= j <= n && j < frames_before(regions, i as int) ==> #[trigger] usable_frames(
                        regions,
                    )[j] < PHYS_ADDR_LIMIT,
            decreases len - i,
        {
            let region = memory_map_region(self.memory_map, i);
            proof {
                lemma_usable_frames_step(regions, i as int);
                lemma_usable_frames_prefix(regions, i as int + 1);
                lemma_usable_frames_prefix(regions, i as int);
            }
            if region.region_type == RegionKind::Usable {
                let sfn = region.range.start_frame_number;
                let efn = region.range.end_frame_number;
                if sfn > u64::MAX / PAGE_SIZE || efn > u64::MAX / PAGE_SIZE {
                    assert(!(regions[i as int].range.start_frame_number * PAGE_SIZE <= u64::MAX
                        && regions[i as int].range.end_frame_number * PAGE_SIZE <= u64::MAX));
                    return false;
                }
                let count: u64 = if sfn < efn { efn - sfn } else { 0 };
                assert(count == region_frame_count(regions[i as int]));
                let room: u64 = (n as u64) - before;
                let fits_all = count <= room;
                let reached: u64 = if fits_all { count } else { room + 1 };
                if reached > 0 {
                    let last_addr = (sfn + (reached - 1)) * PAGE_SIZE;
                    let ghost j = before + reached - 1;
                    assert(usable_frames(regions.take(i + 1))[j] == usable_frames(regions)[j]);
                    assert(usable_frames(regions)[j] == last_addr);
                    if last_addr >= PHYS_ADDR_LIMIT {
                        return false;
                    }
                    assert forall|j2: int|
                        0 <= j2 <= n && j2 < frames_before(regions, i + 1) implies #[trigger] usable_frames(
                            regions,
                        )[j2] < PHYS_ADDR_LIMIT by {
                        if j2 >= before {
                            assert(usable_frames(regions.take(i + 1))[j2] == usable_frames(regions)[j2]);
                            assert(usable_frames(regions)[j2] == (sfn + (j2 - before)) * PAGE_SIZE);
                        }
                    }
                }
                if !fits_all {
                    proof {
                        lemma_frame_lookup_ok_beyond(regions, n as int, i as int + 1);
                    }
                    return true;
                }
                before = before + count;
            }
            i += 1;
        }
        assert(regions.take(len as int) =~= regions);
        true
    }

    /// The count can still move on and the next lookup stays within the
    /// address limits: what `allocate_frame` needs.
    pub open spec fn allocation_ok(&self) -> bool {
        &&& self.next_index() < usize::MAX
        &&& frame_lookup_ok(self.regions(), self.next_index())
    }

    /// Whether `allocate_frame` may be called.
    pub fn can_allocate_frame(&self) -> (ok: bool)
        ensures
            ok == self.allocation_ok(),
    {
        let room = self.next < usize::MAX;
        room && self.frame_lookup_safe(self.next)
    }

    /// Hands out the next usable frame of the memory map, or `None` once all
    /// of them have been handed out; either way the count moves on by one.
    pub fn allocate_frame(&mut self) -> (frame: Option<u64>)
        requires
            old(self).allocation_ok(),
        ensures
            frame == nth_usable_frame(old(self).regions(), old(self).next_index()),
            frame matches Some(f) ==> exists|i: int|
                0 <= i < old(self).regions().len() && #[trigger] old(self).regions()[i].region_type
                    == RegionKind::Usable && old(self).regions()[i].range.start_frame_number * 4096
                    <= f && f + 4096 <= old(self).regions()[i].range.end_frame_number * 4096 && f
                    % 4096 == 0,
            final(self).regions() == old(self).regions(),
            final(self).next_index() == old(self).next_index() + 1,
    {
        let frame = self.usable_frame(self.next);
        self.next += 1;
        frame
    }
}


/// Bits 47 to 63 of a 64-bit address, as a number.
pub open spec fn high_bits(addr: int) -> int {
    addr / 0x8000_0000_0000
}

/// A canonical virtual address: bits 48 to 63 are copies of bit 47.
pub open spec fn is_canonical(addr: int) -> bool {
    high_bits(addr) == 0 || high_bits(addr) == 0x1_ffff
}

/// A value that `VirtAddr::new` accepts: canonical, or with bits 48 to 63
/// clear and bit 47 set, so that sign extension makes it canonical.
pub open spec fn is_virt_addr_input(addr: int) -> bool {
    is_canonical(addr) || high_bits(addr) == 1
}

/// The canonical address that `VirtAddr::new` makes of `addr`: bit 47
/// copied into bits 48 to 63.
pub open spec fn sign_extended(addr: int) -> int {
    if high_bits(addr) == 1 {
        addr + 0xffff_0000_0000_0000
    } else {
        addr
    }
}

/// `VirtAddr::new(base) + offset`, as a `u64`. `Add<u64> for VirtAddr` adds
/// the plain numbers (panicking on overflow) and passes the sum to
/// `VirtAddr::new`, which panics unless it is a valid input and sign-extends
/// bit 47.
#[verifier::external_body]
fn virt_addr_add(base: u64, offset: u64) -> (sum: u64)
    requires
        is_canonical(base as int),
        base + offset <= u64::MAX,
        is_virt_addr_input(base + offset),
    ensures
        sum == sign_extended(base + offset),
{
    (VirtAddr::new(base) + offset).as_u64()
}

/// The virtual address of the level 4 page table whose frame starts at the
/// physical address `table_frame_start`, where all physical memory is mapped
/// at the virtual address `physical_memory_offset`.
pub fn level_4_table_addr(physical_memory_offset: u64, table_frame_start: u64) -> (virt: u64)
    requires
        is_canonical(physical_memory_offset as int),
        table_frame_start < PHYS_ADDR_LIMIT,
        physical_memory_offset + table_frame_start <= u64::MAX,
        is_virt_addr_input(physical_memory_offset + table_frame_start),
    ensures
        virt == sign_extended(physical_memory_offset + table_frame_start),
        physical_memory_offset + table_frame_start < 0x8000_0000_0000 ==> virt
            == physical_memory_offset + table_frame_start,
        0x8000_0000_0000 <= physical_memory_offset + table_frame_start < 0x1_0000_0000_0000 ==> virt
            == physical_memory_offset + table_frame_start + 0xffff_0000_0000_0000,
        physical_memory_offset + table_frame_start >= 0xffff_8000_0000_0000 ==> virt
            == physical_memory_offset + table_frame_start,
{
    virt_addr_add(physical_memory_offset, table_frame_start)
}

} // verus!
