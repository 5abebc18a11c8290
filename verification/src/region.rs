//! The BARs of the assigned device, and which parts of them the guest accesses directly.

use vstd::prelude::*;

use crate::align;
use crate::msix::MsixLayout;
use crate::ranges;

verus! {

/// Flag of a VFIO region that can be read.
pub const VFIO_REGION_INFO_FLAG_READ: u32 = 1;

/// Flag of a VFIO region that can be written.
pub const VFIO_REGION_INFO_FLAG_WRITE: u32 = 2;

/// Flag of a VFIO region that can be mapped.
pub const VFIO_REGION_INFO_FLAG_MMAP: u32 = 4;

/// Protection of a mapping that can be read.
pub const PROT_READ: i32 = 1;

/// Protection of a mapping that can be written.
pub const PROT_WRITE: i32 = 2;

/// The kind of address space a memory BAR lives in.
#[derive(Debug, Clone, Copy, PartialEq, Eq, Structural)]
pub enum PciBarType {
    /// 32-bit memory BAR.
    Memory32,
    /// 64-bit memory BAR (consumes two BAR slots).
    Memory64,
}

/// Whether the guest may prefetch from a memory BAR.
#[derive(Debug, Clone, Copy, PartialEq, Eq, Structural)]
pub enum BarPrefetchable {
    /// Reads have no side effects.
    Yes,
    /// Reads may have side effects.
    No,
}

/// A capability that the kernel reports for a VFIO region.
#[derive(Debug, PartialEq, Eq)]
pub enum RegionInfoCap {
    /// Only these areas `(offset, size)` of the region can be mapped.
    SparseMmap(Vec<(u64, u64)>),
    /// A capability that says nothing about mapping.
    Other,
}

/// What the kernel reports about a VFIO region.
#[derive(Debug, PartialEq, Eq)]
pub struct RegionInfo {
    /// Size of the region in bytes, zero where the device has no such region.
    pub size: u64,
    /// The `VFIO_REGION_INFO_FLAG_*` bits of the region.
    pub flags: u32,
    /// Offset of the region in the file of the device.
    pub offset: u64,
    /// The capabilities of the region.
    pub caps: Vec<RegionInfoCap>,
}

/// A host `mmap` of a (sub-)range of a VFIO region, registered into the guest as a KVM memory
/// region so the guest accesses the device memory directly.
#[derive(Debug, Clone, Copy, PartialEq, Eq, Structural)]
pub struct BarMmap {
    /// Host virtual address of the mapping.
    pub host_addr: u64,
    /// Length of the mapping in bytes.
    pub length: usize,
    /// Guest physical address this mapping is exposed at.
    pub guest_addr: u64,
    /// KVM memory slot used for this mapping.
    pub slot: u32,
}

/// A single BAR of the assigned device as exposed to the guest.
#[derive(Debug, PartialEq, Eq)]
pub struct MmioRegion {
    /// VFIO region index, equal to the BAR index (0..=5).
    pub index: u32,
    /// Guest physical base address assigned to this BAR.
    pub guest_addr: u64,
    /// Size of the BAR in bytes.
    pub size: u64,
    /// Address space type of the BAR.
    pub bar_type: PciBarType,
    /// Direct mappings of the device memory into the guest (empty for fully trapped BARs).
    pub mmaps: Vec<BarMmap>,
}

/// A sub-area of a VFIO region that is to be mapped into the guest.
#[derive(Debug, Clone, Copy, PartialEq, Eq, Structural)]
pub struct AreaRequest {
    /// Offset of the area in the file of the device.
    pub file_offset: u64,
    /// Length of the area in bytes.
    pub length: u64,
    /// Protection of the mapping.
    pub prot: i32,
    /// Guest physical address to expose the area at.
    pub guest_addr: u64,
}

/// The areas of a region of `size` bytes that can be mapped: those of the first sparse mmap
/// capability, or the whole region where there is none.
pub open spec fn mappable_areas(caps: Seq<RegionInfoCap>, size: u64) -> Seq<(u64, u64)>
    decreases caps.len(),
{
    if caps.len() == 0 {
        seq![(0, size)]
    } else {
        match caps[0] {
            RegionInfoCap::SparseMmap(areas) => areas@,
            RegionInfoCap::Other => mappable_areas(caps.skip(1), size),
        }
    }
}

/// Whether every area ends within 64 bits.
pub open spec fn areas_end(areas: Seq<(u64, u64)>) -> bool {
    forall|i: int| 0 <= i < areas.len() ==> (#[trigger] areas[i]).0 + areas[i].1 <= u64::MAX
}

/// The pages that `size` bytes at `offset` touch, as an interval.
pub open spec fn touched_pages(offset: u64, size: u64, page_size: u64) -> (u64, u64) {
    (
        align::aligned_down(offset, page_size),
        align::aligned_down((offset + size + page_size - 1) as u64, page_size),
    )
}

/// The intervals of BAR `bar` that must stay trapped: the pages of the MSI-X table and of the PBA
/// where they live in it.
pub open spec fn msix_holes(layout: MsixLayout, bar: u32, page_size: u64) -> Seq<(u64, u64)> {
    let table = if layout.table_bar == bar {
        seq![touched_pages(layout.table_offset, layout.table_size, page_size)]
    } else {
        seq![]
    };
    let pba = if layout.pba_bar == bar {
        seq![touched_pages(layout.pba_offset, layout.pba_size, page_size)]
    } else {
        seq![]
    };
    table + pba
}

/// What is left of each of `areas` once the holes are taken out of it.
pub open spec fn outside_holes(areas: Seq<(u64, u64)>, holes: Seq<(u64, u64)>) -> Seq<(u64, u64)>
    decreases areas.len(),
{
    if areas.len() == 0 {
        seq![]
    } else {
        let last = areas.last();
        outside_holes(areas.drop_last(), holes) + ranges::areas_left(
            last.0,
            (last.0 + last.1) as u64,
            holes,
        )
    }
}

/// The areas of BAR `bar`, of `size` bytes, that the guest accesses directly.
pub open spec fn direct_areas(
    info: RegionInfo,
    layout: MsixLayout,
    bar: u32,
    size: u64,
    page_size: u64,
) -> Seq<(u64, u64)> {
    if info.flags & VFIO_REGION_INFO_FLAG_MMAP == 0 {
        seq![]
    } else {
        outside_holes(mappable_areas(info.caps@, size), msix_holes(layout, bar, page_size))
    }
}

/// The protection of mappings of a region with these flags.
pub open spec fn region_prot(flags: u32) -> int {
    let read = if flags & VFIO_REGION_INFO_FLAG_READ != 0 {
        PROT_READ as int
    } else {
        0
    };
    let write = if flags & VFIO_REGION_INFO_FLAG_WRITE != 0 {
        PROT_WRITE as int
    } else {
        0
    };
    read + write
}

/// The request that maps an area of a region to where it lies in its BAR at `guest_addr`.
pub open spec fn area_request(info: RegionInfo, guest_addr: u64, area: (u64, u64)) -> AreaRequest {
    AreaRequest {
        file_offset: (info.offset + area.0) as u64,
        length: area.1,
        prot: region_prot(info.flags) as i32,
        guest_addr: (guest_addr + area.0) as u64,
    }
}

/// The requests that map the directly accessed areas of a BAR at `guest_addr`, in their order.
pub open spec fn mapping_requests(
    info: RegionInfo,
    layout: MsixLayout,
    bar: u32,
    size: u64,
    page_size: u64,
    guest_addr: u64,
) -> Seq<AreaRequest> {
    direct_areas(info, layout, bar, size, page_size).map_values(
        |area: (u64, u64)| area_request(info, guest_addr, area),
    )
}

/// Whether every area starts within 64 bits, in the file of the device and in the guest.
pub open spec fn areas_start(
    areas: Seq<(u64, u64)>,
    file_offset: u64,
    guest_addr: u64,
) -> bool {
    forall|i: int|
        0 <= i < areas.len() ==> file_offset + (#[trigger] areas[i]).0 <= u64::MAX && guest_addr
            + areas[i].0 <= u64::MAX
}

/// Whether the areas of a BAR at `guest_addr` can be mapped without leaving 64 bits.
pub open spec fn mapping_fits(
    info: RegionInfo,
    layout: MsixLayout,
    bar: u32,
    size: u64,
    page_size: u64,
    guest_addr: u64,
) -> bool {
    info.flags & VFIO_REGION_INFO_FLAG_MMAP != 0 ==> {
        &&& areas_end(mappable_areas(info.caps@, size))
        &&& areas_start(
            direct_areas(info, layout, bar, size, page_size),
            info.offset,
            guest_addr,
        )
    }
}

/// The pages that some bytes touch hold those bytes.
proof fn lemma_touched_pages(offset: u64, size: u64, page_size: u64, x: int)
    requires
        align::is_power_of_two(page_size),
        offset + size + page_size - 1 <= u64::MAX,
        offset <= x < offset + size,
    ensures
        ranges::interval_has(touched_pages(offset, size, page_size), x),
{
    align::law_aligned_down(offset, page_size);
    align::law_aligned_down((offset + size + page_size - 1) as u64, page_size);
}

/// The holes of a BAR hold every byte of the MSI-X table and of the PBA that lives in it.
pub proof fn law_holes_hold_msix(layout: MsixLayout, bar: u32, page_size: u64, x: int)
    requires
        layout.wf(),
        align::is_power_of_two(page_size),
        layout.in_table(bar, x) || layout.in_pba(bar, x),
    ensures
        ranges::intervals_have(msix_holes(layout, bar, page_size), x),
{
    let holes = msix_holes(layout, bar, page_size);
    align::law_aligned_down(0, page_size);
    if layout.in_table(bar, x) {
        lemma_touched_pages(layout.table_offset, layout.table_size, page_size, x);
        assert(ranges::interval_has(holes[0], x));
    } else {
        lemma_touched_pages(layout.pba_offset, layout.pba_size, page_size, x);
        assert(ranges::interval_has(holes.last(), x));
        assert(ranges::interval_has(holes[holes.len() - 1], x));
    }
}

/// The holes of a BAR consist of whole pages.
pub proof fn law_holes_are_pages(layout: MsixLayout, bar: u32, page_size: u64)
    requires
        layout.wf(),
        align::is_power_of_two(page_size),
    ensures
        forall|i: int|
            0 <= i < msix_holes(layout, bar, page_size).len() ==> (#[trigger] msix_holes(
                layout,
                bar,
                page_size,
            )[i]).0 % page_size == 0 && msix_holes(layout, bar, page_size)[i].1 % page_size == 0,
{
    let table_end = layout.table_offset + layout.table_size;
    let pba_end = layout.pba_offset + layout.pba_size;
    align::law_aligned_down(layout.table_offset, page_size);
    align::law_aligned_down((table_end + page_size - 1) as u64, page_size);
    align::law_aligned_down(layout.pba_offset, page_size);
    align::law_aligned_down((pba_end + page_size - 1) as u64, page_size);
}

/// What is left of some areas holds exactly the points of them that no hole holds.
pub proof fn law_outside_holes(areas: Seq<(u64, u64)>, holes: Seq<(u64, u64)>, x: int)
    requires
        areas_end(areas),
    ensures
        ranges::areas_have(outside_holes(areas, holes), x) <==> ranges::areas_have(areas, x)
            && !ranges::intervals_have(holes, x),
    decreases areas.len(),
{
    if areas.len() > 0 {
        let rest = areas.drop_last();
        let last = areas[areas.len() - 1];
        assert forall|i: int| 0 <= i < rest.len() implies (#[trigger] rest[i]).0 + rest[i].1
            <= u64::MAX by {
            assert(areas[i].0 + areas[i].1 <= u64::MAX);
        }
        assert(last.0 + last.1 <= u64::MAX);
        law_outside_holes(rest, holes, x);
        ranges::law_areas_left_hold_what_no_hole_holds(
            last.0,
            (last.0 + last.1) as u64,
            holes,
            x,
        );
        ranges::law_joined_areas(
            outside_holes(rest, holes),
            ranges::areas_left(last.0, (last.0 + last.1) as u64, holes),
            x,
        );
        ranges::law_joined_areas(rest, seq![last], x);
        assert(areas =~= rest + seq![last]);
        assert(seq![last][0] == last);
    }
}

/// No byte of the MSI-X table or of the PBA is accessed directly by the guest.
pub proof fn law_msix_is_not_direct(
    info: RegionInfo,
    layout: MsixLayout,
    bar: u32,
    size: u64,
    page_size: u64,
    x: int,
)
    requires
        layout.wf(),
        align::is_power_of_two(page_size),
        areas_end(mappable_areas(info.caps@, size)),
        layout.in_table(bar, x) || layout.in_pba(bar, x),
    ensures
        !ranges::areas_have(direct_areas(info, layout, bar, size, page_size), x),
{
    law_holes_hold_msix(layout, bar, page_size, x);
    law_outside_holes(mappable_areas(info.caps@, size), msix_holes(layout, bar, page_size), x);
}

impl RegionInfo {
    /// The areas of a region of `size` bytes that can be mapped.
    fn mappable(&self, size: u64) -> (areas: Vec<(u64, u64)>)
        ensures
            areas@ == mappable_areas(self.caps@, size),
    {
        let mut i: usize = 0;
        proof {
            assert(self.caps@.skip(0) =~= self.caps@);
        }
        while i < self.caps.len()
            invariant
                i <= self.caps@.len(),
                mappable_areas(self.caps@, size) == mappable_areas(self.caps@.skip(i as int), size),
            decreases self.caps@.len() - i,
        {
            proof {
                assert(self.caps@.skip(i as int).skip(1) =~= self.caps@.skip(i as int + 1));
            }
            if let RegionInfoCap::SparseMmap(areas) = &self.caps[i] {
                return copy_pairs(areas);
            }
            i = i + 1;
        }
        let mut whole: Vec<(u64, u64)> = Vec::new();
        whole.push((0, size));
        proof {
            assert(whole@ =~= seq![(0u64, size)]);
        }
        whole
    }

    /// The protection of mappings of the region.
    fn prot(&self) -> (prot: i32)
        ensures
            prot == region_prot(self.flags),
    {
        let mut prot: i32 = 0;
        if self.flags & VFIO_REGION_INFO_FLAG_READ != 0 {
            prot = prot + PROT_READ;
        }
        if self.flags & VFIO_REGION_INFO_FLAG_WRITE != 0 {
            prot = prot + PROT_WRITE;
        }
        prot
    }
}

fn copy_pairs(pairs: &Vec<(u64, u64)>) -> (copy: Vec<(u64, u64)>)
    ensures
        copy@ == pairs@,
{
    let mut copy: Vec<(u64, u64)> = Vec::new();
    let mut i: usize = 0;
    while i < pairs.len()
        invariant
            i <= pairs@.len(),
            copy@ == pairs@.take(i as int),
        decreases pairs@.len() - i,
    {
        copy.push(pairs[i]);
        i = i + 1;
    }
    copy
}

impl MsixLayout {
    /// The intervals of BAR `bar` that must stay trapped.
    fn holes(&self, bar: u32, page_size: u64) -> (holes: Vec<(u64, u64)>)
        requires
            self.wf(),
            align::is_power_of_two(page_size),
        ensures
            holes@ == msix_holes(*self, bar, page_size),
    {
        proof {
            align::law_aligned_down(0, page_size);
        }
        let mut holes: Vec<(u64, u64)> = Vec::new();
        if self.table_bar == bar {
            holes.push(
                (
                    align::align_down(self.table_offset, page_size),
                    align::align_up(self.table_offset + self.table_size, page_size),
                ),
            );
        }
        if self.pba_bar == bar {
            holes.push(
                (
                    align::align_down(self.pba_offset, page_size),
                    align::align_up(self.pba_offset + self.pba_size, page_size),
                ),
            );
        }
        proof {
            assert(holes@ =~= msix_holes(*self, bar, page_size));
        }
        holes
    }
}

/// The areas of BAR `bar`, of `size` bytes, that the guest accesses directly.
fn find_direct_areas(
    info: &RegionInfo,
    layout: &MsixLayout,
    bar: u32,
    size: u64,
    page_size: u64,
) -> (direct: Vec<(u64, u64)>)
    requires
        layout.wf(),
        align::is_power_of_two(page_size),
        info.flags & VFIO_REGION_INFO_FLAG_MMAP != 0 ==> areas_end(
            mappable_areas(info.caps@, size),
        ),
    ensures
        direct@ == direct_areas(*info, *layout, bar, size, page_size),
{
    let mut direct: Vec<(u64, u64)> = Vec::new();
    if info.flags & VFIO_REGION_INFO_FLAG_MMAP == 0 {
        // The whole BAR must be trapped and forwarded to the device.
        proof {
            assert(direct@ =~= seq![]);
        }
        return direct;
    }
    let areas = info.mappable(size);
    let holes = layout.holes(bar, page_size);
    let mut i: usize = 0;
    proof {
        assert(direct@ =~= outside_holes(areas@.take(0), holes@));
    }
    while i < areas.len()
        invariant
            i <= areas@.len(),
            areas_end(areas@),
            direct@ == outside_holes(areas@.take(i as int), holes@),
        decreases areas@.len() - i,
    {
        let (offset, length) = areas[i];
        let mut left = ranges::subtract_holes(offset, offset + length, holes.as_slice());
        direct.append(&mut left);
        proof {
            assert(areas@.take(i as int + 1).drop_last() =~= areas@.take(i as int));
        }
        i = i + 1;
    }
    proof {
        assert(areas@.take(i as int) =~= areas@);
    }
    direct
}

/// Whether the areas of a BAR at `guest_addr` can be mapped without leaving 64 bits.
pub fn check_mapping_fits(
    info: &RegionInfo,
    layout: &MsixLayout,
    bar: u32,
    size: u64,
    page_size: u64,
    guest_addr: u64,
) -> (fits: bool)
    requires
        layout.wf(),
        align::is_power_of_two(page_size),
    ensures
        fits == mapping_fits(*info, *layout, bar, size, page_size, guest_addr),
{
    if info.flags & VFIO_REGION_INFO_FLAG_MMAP == 0 {
        return true;
    }
    let areas = info.mappable(size);
    let mut i: usize = 0;
    while i < areas.len()
        invariant
            i <= areas@.len(),
            info.flags & VFIO_REGION_INFO_FLAG_MMAP != 0,
            areas@ == mappable_areas(info.caps@, size),
            forall|k: int| 0 <= k < i ==> (#[trigger] areas@[k]).0 + areas@[k].1 <= u64::MAX,
        decreases areas@.len() - i,
    {
        if areas[i].1 > u64::MAX - areas[i].0 {
            return false;
        }
        i = i + 1;
    }
    let direct = find_direct_areas(info, layout, bar, size, page_size);
    let mut j: usize = 0;
    while j < direct.len()
        invariant
            j <= direct@.len(),
            info.flags & VFIO_REGION_INFO_FLAG_MMAP != 0,
            direct@ == direct_areas(*info, *layout, bar, size, page_size),
            forall|k: int|
                0 <= k < j ==> info.offset + (#[trigger] direct@[k]).0 <= u64::MAX && guest_addr
                    + direct@[k].0 <= u64::MAX,
        decreases direct@.len() - j,
    {
        if direct[j].0 > u64::MAX - info.offset || direct[j].0 > u64::MAX - guest_addr {
            return false;
        }
        j = j + 1;
    }
    true
}

/// Lists the requests that map the directly accessed areas of a BAR at `guest_addr`: the parts of
/// it that can be mapped, without the pages of the MSI-X table and of the PBA.
pub fn plan_mapping(
    info: &RegionInfo,
    layout: &MsixLayout,
    bar: u32,
    size: u64,
    page_size: u64,
    guest_addr: u64,
) -> (requests: Vec<AreaRequest>)
    requires
        layout.wf(),
        align::is_power_of_two(page_size),
        mapping_fits(*info, *layout, bar, size, page_size, guest_addr),
    ensures
        requests@ == mapping_requests(*info, *layout, bar, size, page_size, guest_addr),
{
    let direct = find_direct_areas(info, layout, bar, size, page_size);
    let prot = info.prot();
    let mut requests: Vec<AreaRequest> = Vec::new();
    let ghost all = mapping_requests(*info, *layout, bar, size, page_size, guest_addr);
    let mut i: usize = 0;
    while i < direct.len()
        invariant
            i <= direct@.len(),
            direct@ == direct_areas(*info, *layout, bar, size, page_size),
            all == mapping_requests(*info, *layout, bar, size, page_size, guest_addr),
            areas_start(direct@, info.offset, guest_addr),
            prot == region_prot(info.flags),
            requests@ == all.take(i as int),
        decreases direct@.len() - i,
    {
        let (offset, length) = direct[i];
        requests.push(
            AreaRequest {
                file_offset: info.offset + offset,
                length,
                prot,
                guest_addr: guest_addr + offset,
            },
        );
        proof {
            assert(requests@ =~= all.take(i as int + 1));
        }
        i = i + 1;
    }
    proof {
        assert(all.take(i as int) =~= all);
    }
    requests
}

/// Whether byte `x` lies in a page that one of the `size` bytes at `offset` lies in.
pub open spec fn shares_page(offset: int, size: int, page_size: int, x: int) -> bool {
    offset / page_size <= x / page_size <= (offset + size - 1) / page_size
}

/// Whether byte `x` of BAR `bar` lies in a page of the MSI-X table or of the PBA.
pub open spec fn shares_msix_page(layout: MsixLayout, bar: u32, page_size: u64, x: int) -> bool {
    ||| layout.table_bar == bar && shares_page(
        layout.table_offset as int,
        layout.table_size as int,
        page_size as int,
        x,
    )
    ||| layout.pba_bar == bar && shares_page(
        layout.pba_offset as int,
        layout.pba_size as int,
        page_size as int,
        x,
    )
}

proof fn lemma_page_start(v: int, page: int, x: int)
    requires
        page > 0,
    ensures
        v / page * page <= x <==> v / page <= x / page,
{
    vstd::arithmetic::div_mod::lemma_fundamental_div_mod(x, page);
    let q = v / page;
    let r = x / page;
    assert(q * page <= x <==> q <= r) by (nonlinear_arith)
        requires
            page > 0,
            x == page * r + x % page,
            0 <= x % page < page,
    ;
}

proof fn lemma_touched_pages_exactly(offset: u64, size: u64, page_size: u64, x: int)
    requires
        align::is_power_of_two(page_size),
        size > 0,
        offset + size + page_size - 1 <= u64::MAX,
    ensures
        ranges::interval_has(touched_pages(offset, size, page_size), x) <==> shares_page(
            offset as int,
            size as int,
            page_size as int,
            x,
        ),
        touched_pages(offset, size, page_size).0 < touched_pages(offset, size, page_size).1,
{
    let p = page_size as int;
    let last = offset + size - 1;
    align::law_aligned_down(offset, page_size);
    align::law_aligned_down_is_start_of_page(offset, page_size);
    align::law_aligned_down((offset + size + page_size - 1) as u64, page_size);
    align::law_aligned_down_is_start_of_page((offset + size + page_size - 1) as u64, page_size);
    assert((last + p) / p == last / p + 1) by {
        vstd::arithmetic::div_mod::lemma_div_plus_one(last, p);
    }
    lemma_page_start(offset as int, p, x);
    lemma_page_start(last + p, p, x);
}

proof fn lemma_holes_are_msix_pages(layout: MsixLayout, bar: u32, page_size: u64, x: int)
    requires
        layout.wf(),
        align::is_power_of_two(page_size),
    ensures
        ranges::intervals_have(msix_holes(layout, bar, page_size), x) <==> shares_msix_page(
            layout,
            bar,
            page_size,
            x,
        ),
        forall|i: int|
            0 <= i < msix_holes(layout, bar, page_size).len() ==> (#[trigger] msix_holes(
                layout,
                bar,
                page_size,
            )[i]).0 < msix_holes(layout, bar, page_size)[i].1,
{
    align::law_aligned_down(0, page_size);
    let holes = msix_holes(layout, bar, page_size);
    lemma_touched_pages_exactly(layout.table_offset, layout.table_size, page_size, x);
    lemma_touched_pages_exactly(layout.pba_offset, layout.pba_size, page_size, x);
    if layout.table_bar == bar {
        assert(holes[0] == touched_pages(layout.table_offset, layout.table_size, page_size));
    }
    if layout.pba_bar == bar {
        assert(holes[holes.len() - 1] == touched_pages(
            layout.pba_offset,
            layout.pba_size,
            page_size,
        ));
    }
}

/// The flags of a region, in arithmetic.
proof fn lemma_region_flags(flags: u32)
    ensures
        (flags & VFIO_REGION_INFO_FLAG_READ != 0) == (flags % 2 == 1),
        (flags & VFIO_REGION_INFO_FLAG_WRITE != 0) == (flags / 2 % 2 == 1),
        (flags & VFIO_REGION_INFO_FLAG_MMAP != 0) == (flags / 4 % 2 == 1),
{
    assert((flags & 1 != 0) == (flags % 2 == 1)) by (bit_vector);
    assert((flags & 2 != 0) == (flags / 2 % 2 == 1)) by (bit_vector);
    assert((flags & 4 != 0) == (flags / 4 % 2 == 1)) by (bit_vector);
}

/// Whether capability `k` is the first sparse mmap capability, or there is none and `k` is the
/// number of capabilities.
pub open spec fn first_sparse(caps: Seq<RegionInfoCap>, k: int) -> bool {
    &&& 0 <= k <= caps.len()
    &&& k < caps.len() ==> caps[k] is SparseMmap
    &&& forall|i: int| 0 <= i < k ==> !(#[trigger] caps[i] is SparseMmap)
}

/// The areas that the kernel allows to be mapped, where capability `k` is the first sparse one.
pub open spec fn allowed_areas(caps: Seq<RegionInfoCap>, size: u64, k: int) -> Seq<(u64, u64)> {
    if k < caps.len() {
        caps[k]->SparseMmap_0@
    } else {
        seq![(0, size)]
    }
}

proof fn lemma_mappable_is_allowed(caps: Seq<RegionInfoCap>, size: u64, k: int)
    requires
        first_sparse(caps, k),
    ensures
        mappable_areas(caps, size) == allowed_areas(caps, size, k),
    decreases caps.len(),
{
    if caps.len() > 0 && k > 0 {
        assert(!(caps[0] is SparseMmap));
        let rest = caps.skip(1);
        assert forall|i: int| 0 <= i < k - 1 implies !(#[trigger] rest[i] is SparseMmap) by {
            assert(!(caps[i + 1] is SparseMmap));
        }
        lemma_mappable_is_allowed(rest, size, k - 1);
    }
}

/// Which bytes of a BAR the guest accesses directly: none where the region cannot be mapped; where
/// it can and has no sparse mmap capability, whatever other ones it has, every byte of the BAR that
/// lies in no page of the MSI-X table or of the PBA; and where it has one, every such byte of the
/// areas of the first one.
pub proof fn law_direct_bytes(
    info: RegionInfo,
    layout: MsixLayout,
    bar: u32,
    size: u64,
    page_size: u64,
    k: int,
    x: int,
)
    requires
        layout.wf(),
        align::is_power_of_two(page_size),
        first_sparse(info.caps@, k),
        k < info.caps@.len() ==> areas_end(info.caps@[k]->SparseMmap_0@),
    ensures
        ranges::areas_have(direct_areas(info, layout, bar, size, page_size), x) <==> {
            &&& info.flags / 4 % 2 == 1
            &&& if k < info.caps@.len() {
                ranges::areas_have(info.caps@[k]->SparseMmap_0@, x)
            } else {
                0 <= x < size
            }
            &&& !shares_msix_page(layout, bar, page_size, x)
        },
{
    let allowed = allowed_areas(info.caps@, size, k);
    lemma_region_flags(info.flags);
    lemma_mappable_is_allowed(info.caps@, size, k);
    lemma_holes_are_msix_pages(layout, bar, page_size, x);
    law_outside_holes(allowed, msix_holes(layout, bar, page_size), x);
    if k == info.caps@.len() {
        assert(allowed[0] == (0u64, size));
    }
}

/// Taking the holes out of two lists of areas one after the other is taking them out of both
/// together.
pub proof fn law_outside_holes_of_joined_areas(
    a: Seq<(u64, u64)>,
    b: Seq<(u64, u64)>,
    holes: Seq<(u64, u64)>,
)
    ensures
        outside_holes(a + b, holes) == outside_holes(a, holes) + outside_holes(b, holes),
    decreases b.len(),
{
    if b.len() == 0 {
        assert(a + b =~= a);
        assert(outside_holes(a, holes) + outside_holes(b, holes) =~= outside_holes(a, holes));
    } else {
        law_outside_holes_of_joined_areas(a, b.drop_last(), holes);
        assert((a + b).drop_last() =~= a + b.drop_last());
        assert(outside_holes(a + b, holes) =~= outside_holes(a, holes) + outside_holes(b, holes));
    }
}

/// What is left of one allowed area lies in it, in rising order, and is split nowhere but at pages of
/// the MSI-X table or of the PBA: there is room between any two of its parts. The directly accessed
/// areas of a BAR are what is left of those that the kernel allows.
pub proof fn law_direct_areas_are_whole(
    info: RegionInfo,
    layout: MsixLayout,
    bar: u32,
    size: u64,
    page_size: u64,
    k: int,
    offset: u64,
    length: u64,
)
    requires
        layout.wf(),
        align::is_power_of_two(page_size),
        first_sparse(info.caps@, k),
        offset + length <= u64::MAX,
    ensures
        ({
            let left = outside_holes(seq![(offset, length)], msix_holes(layout, bar, page_size));
            &&& ranges::areas_within(left, offset as int, offset + length)
            &&& forall|i: int, j: int|
                0 <= i < j < left.len() ==> (#[trigger] left[i]).0 + left[i].1 < (
                #[trigger] left[j]).0
        }),
        info.flags / 4 % 2 == 1 ==> direct_areas(info, layout, bar, size, page_size)
            == outside_holes(
            allowed_areas(info.caps@, size, k),
            msix_holes(layout, bar, page_size),
        ),
{
    let one = seq![(offset, length)];
    let holes = msix_holes(layout, bar, page_size);
    lemma_holes_are_msix_pages(layout, bar, page_size, 0);
    ranges::law_areas_left_are_whole(offset, (offset + length) as u64, holes);
    ranges::law_areas_left_are_ordered(offset, (offset + length) as u64, holes);
    assert(one.drop_last() =~= seq![]);
    assert(outside_holes(one.drop_last(), holes) =~= seq![]);
    assert(outside_holes(one, holes) =~= ranges::areas_left(
        offset,
        (offset + length) as u64,
        holes,
    ));
    lemma_region_flags(info.flags);
    lemma_mappable_is_allowed(info.caps@, size, k);
}

/// A mapping can be read and written exactly where the region can: the two bits of the protection
/// are the two low bits of the flags.
pub proof fn law_protection_is_that_of_the_region(flags: u32)
    ensures
        region_prot(flags) == flags as int % 4,
{
    lemma_region_flags(flags);
}

/// Each request maps an area of the region to the place that it has in the BAR: it is as far from
/// the start of the BAR in the guest as from the start of the region in the file of the device, at
/// the offset of the area, and as long as the area.
pub proof fn law_requests_keep_their_place(
    info: RegionInfo,
    layout: MsixLayout,
    bar: u32,
    size: u64,
    page_size: u64,
    guest_addr: u64,
    i: int,
)
    requires
        mapping_fits(info, layout, bar, size, page_size, guest_addr),
        0 <= i < mapping_requests(info, layout, bar, size, page_size, guest_addr).len(),
    ensures
        ({
            let direct = direct_areas(info, layout, bar, size, page_size);
            let requests = mapping_requests(info, layout, bar, size, page_size, guest_addr);
            &&& requests.len() == direct.len()
            &&& requests[i].guest_addr as int - guest_addr == direct[i].0
            &&& requests[i].file_offset as int - info.offset == direct[i].0
            &&& requests[i].length == direct[i].1
            &&& requests[i].prot == info.flags as int % 4
        }),
{
    let direct = direct_areas(info, layout, bar, size, page_size);
    law_protection_is_that_of_the_region(info.flags);
    assert(info.offset + direct[i].0 <= u64::MAX);
}

proof fn lemma_outside_holes_nonempty(areas: Seq<(u64, u64)>, holes: Seq<(u64, u64)>)
    ensures
        forall|i: int|
            0 <= i < outside_holes(areas, holes).len() ==> (#[trigger] outside_holes(
                areas,
                holes,
            )[i]).1 > 0,
    decreases areas.len(),
{
    if areas.len() > 0 {
        lemma_outside_holes_nonempty(areas.drop_last(), holes);
        let last = areas.last();
        let before = outside_holes(areas.drop_last(), holes);
        let left = ranges::areas_left(last.0, (last.0 + last.1) as u64, holes);
        ranges::law_areas_left_are_ordered(last.0, (last.0 + last.1) as u64, holes);
        assert forall|i: int| 0 <= i < outside_holes(areas, holes).len() implies (
        #[trigger] outside_holes(areas, holes)[i]).1 > 0 by {
            if i < before.len() {
                assert(outside_holes(areas, holes)[i] == before[i]);
            } else {
                assert(outside_holes(areas, holes)[i] == left[i - before.len()]);
            }
        }
    }
}

/// A BAR can be mapped without leaving 64 bits where it cannot be mapped at all, and where all that
/// the kernel allows to be mapped ends within 64 bits, by itself, in the file of the device and in
/// the guest. Where it can be mapped, the allowed areas end within 64 bits by themselves.
pub proof fn law_mapping_fits(
    info: RegionInfo,
    layout: MsixLayout,
    bar: u32,
    size: u64,
    page_size: u64,
    guest_addr: u64,
    k: int,
)
    requires
        layout.wf(),
        align::is_power_of_two(page_size),
        first_sparse(info.caps@, k),
    ensures
        info.flags / 4 % 2 == 0 ==> mapping_fits(info, layout, bar, size, page_size, guest_addr),
        (forall|i: int|
            0 <= i < allowed_areas(info.caps@, size, k).len() ==> {
                let area = #[trigger] allowed_areas(info.caps@, size, k)[i];
                &&& area.0 + area.1 <= u64::MAX
                &&& info.offset + area.0 + area.1 <= u64::MAX
                &&& guest_addr + area.0 + area.1 <= u64::MAX
            }) ==> mapping_fits(info, layout, bar, size, page_size, guest_addr),
        mapping_fits(info, layout, bar, size, page_size, guest_addr) && info.flags / 4 % 2 == 1
            ==> forall|i: int|
            0 <= i < allowed_areas(info.caps@, size, k).len() ==> (#[trigger] allowed_areas(
                info.caps@,
                size,
                k,
            )[i]).0 + allowed_areas(info.caps@, size, k)[i].1 <= u64::MAX,
{
    let allowed = allowed_areas(info.caps@, size, k);
    let holes = msix_holes(layout, bar, page_size);
    let direct = direct_areas(info, layout, bar, size, page_size);
    lemma_region_flags(info.flags);
    lemma_mappable_is_allowed(info.caps@, size, k);
    if forall|i: int|
        0 <= i < allowed.len() ==> {
            let area = #[trigger] allowed[i];
            &&& area.0 + area.1 <= u64::MAX
            &&& info.offset + area.0 + area.1 <= u64::MAX
            &&& guest_addr + area.0 + area.1 <= u64::MAX
        } {
        lemma_outside_holes_nonempty(allowed, holes);
        assert forall|i: int| 0 <= i < direct.len() implies info.offset + (
        #[trigger] direct[i]).0 <= u64::MAX && guest_addr + direct[i].0 <= u64::MAX by {
            let x = direct[i].0 as int;
            assert(ranges::area_has(direct[i], x));
            law_outside_holes(allowed, holes, x);
            let j = choose|j: int|
                0 <= j < allowed.len() && ranges::area_has(#[trigger] allowed[j], x);
            assert(info.offset + allowed[j].0 + allowed[j].1 <= u64::MAX);
        }
    }
}

/// Nothing of a BAR is accessed directly where its region cannot be mapped.
pub proof fn law_unmappable_bar_is_not_direct(
    info: RegionInfo,
    layout: MsixLayout,
    bar: u32,
    size: u64,
    page_size: u64,
)
    requires
        info.flags / 4 % 2 == 0,
    ensures
        direct_areas(info, layout, bar, size, page_size).len() == 0,
{
    lemma_region_flags(info.flags);
}

} // verus!
