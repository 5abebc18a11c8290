//! Placing the BARs of a device in guest address space and mapping them into the guest.
//!
//! The BARs are taken one after the other. For each, its register is read from the device, an
//! address is allocated, the emulated register is programmed with it, and the areas of the BAR
//! that the guest accesses directly are mapped. [`VfioPciDevice::allocate_and_map_bars`] says
//! which of these comes next, given how the last one came out.

use vstd::prelude::*;

use crate::align;
use crate::allocator;
use crate::allocator::MmioWindows;
use crate::device;
use crate::device::{BarSetting, VfioPciDevice, NUM_BAR_REGS};
use crate::error::VfioPciError;
use crate::mapping;
use crate::mapping::{AreaEvent, AreaProgress, AreaStep, KvmMemoryRegion, MmapCall};
use crate::msix::MsixLayout;
use crate::ranges;
use crate::region;
use crate::region::{AreaRequest, BarMmap, BarPrefetchable, MmioRegion, PciBarType};
use crate::resources::VfioPciResources;

verus! {

/// Byte offset of the first BAR in PCI configuration space.
pub const PCI_CONFIG_BAR_OFFSET: u32 = 0x10;

/// Index of the VFIO region of the first BAR.
pub const VFIO_PCI_BAR0_REGION_INDEX: u32 = 0;

/// How far the BARs of a device have come.
#[derive(Debug, PartialEq, Eq)]
pub enum BarSetup {
    /// No BAR was looked at yet.
    Start,
    /// The register of a BAR is being read from the device.
    Config { bar_index: u32 },
    /// The emulated register of a BAR is being programmed.
    Program { region: MmioRegion },
    /// The areas of a BAR are being mapped; as many are as the BAR has mappings.
    Mapping { region: MmioRegion, requests: Vec<AreaRequest>, progress: AreaProgress },
    /// All BARs are set up, or one of them cannot be.
    Finished,
}

/// How the last action came out.
#[derive(Debug, PartialEq, Eq)]
pub enum SetupEvent {
    /// There was none yet.
    Begin,
    /// The device holds this dword.
    ConfigDword(u32),
    /// The emulated register of the BAR is programmed.
    Programmed,
    /// A call that maps an area came out like this.
    Area(AreaEvent),
}

/// What is to be done next.
#[derive(Debug, PartialEq, Eq)]
pub enum SetupAction {
    /// Read the dword at a byte offset of the device's configuration space.
    ReadConfig { offset: u32 },
    /// Program the emulated register of a BAR.
    ProgramBar(BarSetting),
    /// Map the file of the device.
    Mmap(MmapCall),
    /// Take the next memory slot.
    NextSlot,
    /// Register a memory region.
    Register(KvmMemoryRegion),
    /// Nothing: all BARs are set up.
    Done,
    /// Nothing but to unmap what was mapped at these addresses, with these lengths: a BAR cannot
    /// be set up.
    Failed { error: VfioPciError, unmap: Vec<(u64, usize)> },
}

/// Whether the register of a BAR says that it is an IO BAR.
pub open spec fn is_io_bar(bar_cfg: u32) -> bool {
    bar_cfg & 0x1 == 0x1
}

/// The address space type that the register of a memory BAR says.
pub open spec fn bar_type_of(bar_cfg: u32) -> PciBarType {
    if bar_cfg & 0x6 == 0x4 {
        PciBarType::Memory64
    } else {
        PciBarType::Memory32
    }
}

/// Whether the register of a memory BAR says that the guest may prefetch from it.
pub open spec fn prefetchable_of(bar_cfg: u32) -> BarPrefetchable {
    if bar_cfg & 0x8 == 0x8 {
        BarPrefetchable::Yes
    } else {
        BarPrefetchable::No
    }
}

/// Number of BAR slots that a BAR consumes.
pub open spec fn bar_slots(bar_type: PciBarType) -> int {
    match bar_type {
        PciBarType::Memory32 => 1,
        PciBarType::Memory64 => 2,
    }
}

/// The index of the first BAR from `i` on that the device has, or the number of BAR slots.
pub open spec fn next_bar(resources: VfioPciResources, i: int) -> int
    decreases NUM_BAR_REGS - i,
{
    if i >= NUM_BAR_REGS {
        NUM_BAR_REGS as int
    } else if resources.region_size(i) != 0 {
        i
    } else {
        next_bar(resources, i + 1)
    }
}

/// The setting of BAR `i`, whose register holds `bar_cfg`, at `guest_addr`.
pub open spec fn setting_of(
    resources: VfioPciResources,
    i: int,
    bar_cfg: u32,
    guest_addr: u64,
) -> BarSetting {
    BarSetting {
        bar_idx: i as u8,
        guest_addr,
        size: resources.region_size(i),
        bar_type: bar_type_of(bar_cfg),
        prefetchable: prefetchable_of(bar_cfg),
    }
}

/// Whether a region is the BAR of a setting.
pub open spec fn region_is(region: MmioRegion, setting: BarSetting) -> bool {
    &&& region.index == setting.bar_idx
    &&& region.guest_addr == setting.guest_addr
    &&& region.size == setting.size
    &&& region.bar_type == setting.bar_type
}

/// Whether two regions are the same BAR, whatever their mappings.
pub open spec fn same_bar(a: MmioRegion, b: MmioRegion) -> bool {
    &&& a.index == b.index
    &&& a.guest_addr == b.guest_addr
    &&& a.size == b.size
    &&& a.bar_type == b.bar_type
}

/// What is set up of a device, and the address space that is left.
pub struct SetupState {
    /// How far the BARs have come.
    pub setup: BarSetup,
    /// The settings of the emulated BARs.
    pub bars: Seq<BarSetting>,
    /// The BARs that are mapped.
    pub regions: Seq<MmioRegion>,
    /// The nodes of the window for 32-bit BARs.
    pub nodes32: Seq<(u64, u64, bool)>,
    /// The nodes of the window for 64-bit BARs.
    pub nodes64: Seq<(u64, u64, bool)>,
}

impl SetupState {
    /// The nodes of the window that BARs of a type are placed in.
    pub open spec fn nodes(self, bar_type: PciBarType) -> Seq<(u64, u64, bool)> {
        match bar_type {
            PciBarType::Memory32 => self.nodes32,
            PciBarType::Memory64 => self.nodes64,
        }
    }

    /// Whether the address space that is left is the same.
    pub open spec fn same_windows(self, other: SetupState) -> bool {
        self.nodes32 == other.nodes32 && self.nodes64 == other.nodes64
    }
}

/// Whether `event` can follow on `setup`.
pub open spec fn setup_event_fits(setup: BarSetup, event: SetupEvent) -> bool {
    match event {
        SetupEvent::Begin => setup is Start,
        SetupEvent::ConfigDword(_) => setup is Config,
        SetupEvent::Programmed => setup is Program,
        SetupEvent::Area(e) => setup is Mapping && !(e is Begin) && mapping::event_fits(
            setup->progress,
            e,
        ),
    }
}

/// Whether the BARs from `from` on are looked for the next one that the device has, with its
/// register being read next, and nothing is left to do where there is none.
pub open spec fn bar_sought(
    resources: VfioPciResources,
    from: int,
    setup: BarSetup,
    action: SetupAction,
) -> bool {
    let i = next_bar(resources, from);
    if i < NUM_BAR_REGS {
        &&& setup == (BarSetup::Config { bar_index: i as u32 })
        &&& action == (SetupAction::ReadConfig { offset: (PCI_CONFIG_BAR_OFFSET + i * 4) as u32 })
    } else {
        &&& setup is Finished
        &&& action is Done
    }
}

/// Whether BAR `i`, whose register holds `bar_cfg`, is given an address that its emulated register
/// is to be programmed with, or is given none.
pub open spec fn bar_placed(
    resources: VfioPciResources,
    i: int,
    bar_cfg: u32,
    before: SetupState,
    after: SetupState,
    action: SetupAction,
) -> bool {
    let size = resources.region_size(i);
    let bar_type = bar_type_of(bar_cfg);
    &&& after.regions == before.regions
    &&& match bar_type {
        PciBarType::Memory32 => after.nodes64 == before.nodes64,
        PciBarType::Memory64 => after.nodes32 == before.nodes32,
    }
    &&& allocator::nodes_apart(after.nodes(bar_type))
    &&& match action {
        SetupAction::ProgramBar(setting) => {
            &&& allocator::allocation(
                before.nodes(bar_type),
                size,
                size,
                Ok(setting.guest_addr),
                after.nodes(bar_type),
            )
            &&& setting == setting_of(resources, i, bar_cfg, setting.guest_addr)
            &&& after.bars == before.bars.push(setting)
            &&& after.setup matches BarSetup::Program { region }
            &&& region_is(region, setting)
            &&& region.mmaps@ == Seq::<BarMmap>::empty()
        },
        SetupAction::Failed { error, unmap } => {
            &&& error matches VfioPciError::BarAllocation(reason)
            &&& allocator::allocation(
                before.nodes(bar_type),
                size,
                size,
                Err(reason),
                after.nodes(bar_type),
            )
            &&& unmap@ == Seq::<(u64, usize)>::empty()
            &&& after.bars == before.bars
            &&& after.setup is Finished
        },
        _ => false,
    }
}

/// What is to be unmapped where an area of a BAR cannot be mapped: what the area itself says, then
/// the mappings that the BAR already has.
pub open spec fn unmapped_on_failure(
    unmap: Option<(u64, usize)>,
    mmaps: Seq<BarMmap>,
) -> Seq<(u64, usize)> {
    let own = match unmap {
        Some(own) => seq![own],
        None => seq![],
    };
    own + mmaps.map_values(|mmap: BarMmap| (mmap.host_addr, mmap.length))
}

/// Whether `action` carries out a step of mapping an area of a BAR that has `mmaps`.
pub open spec fn carries_out(step: AreaStep, mmaps: Seq<BarMmap>, action: SetupAction) -> bool {
    match step {
        AreaStep::Mmap(call) => action == SetupAction::Mmap(call),
        AreaStep::NextSlot => action == SetupAction::NextSlot,
        AreaStep::Register(region) => action == SetupAction::Register(region),
        AreaStep::Mapped(_) => false,
        AreaStep::Failed { error, unmap } => {
            &&& action matches SetupAction::Failed { error: reason, unmap: list }
            &&& reason == error
            &&& list@ == unmapped_on_failure(unmap, mmaps)
        },
    }
}

/// Whether `setup` goes on with mapping the areas of a BAR once one of them has come as far as
/// `progress`: it is over where the area cannot be mapped.
pub open spec fn goes_on(
    setup: BarSetup,
    region: MmioRegion,
    mmaps: Seq<BarMmap>,
    requests: Seq<AreaRequest>,
    progress: AreaProgress,
) -> bool {
    if progress is Closed {
        setup is Finished
    } else {
        &&& setup matches BarSetup::Mapping { region: r, requests: q, progress: p }
        &&& same_bar(r, region)
        &&& r.mmaps@ == mmaps
        &&& q@ == requests
        &&& p == progress
    }
}

/// Whether the next area of a BAR that has `mmaps` is begun, or the BAR is mapped and the next BAR
/// is sought.
pub open spec fn bar_continued(
    resources: VfioPciResources,
    region: MmioRegion,
    mmaps: Seq<BarMmap>,
    requests: Seq<AreaRequest>,
    before: SetupState,
    after: SetupState,
    action: SetupAction,
) -> bool {
    &&& after.bars == before.bars
    &&& after.same_windows(before)
    &&& if mmaps.len() < requests.len() {
        &&& after.regions == before.regions
        &&& exists|progress: AreaProgress, step: AreaStep|
            {
                &&& #[trigger] mapping::area_step(
                    requests[mmaps.len() as int],
                    AreaProgress::Fresh,
                    AreaEvent::Begin,
                    progress,
                    step,
                )
                &&& carries_out(step, mmaps, action)
                &&& goes_on(after.setup, region, mmaps, requests, progress)
            }
    } else {
        &&& after.regions.len() == before.regions.len() + 1
        &&& after.regions == before.regions.push(after.regions.last())
        &&& same_bar(after.regions.last(), region)
        &&& after.regions.last().mmaps@ == mmaps
        &&& bar_sought(
            resources,
            region.index + bar_slots(region.bar_type),
            after.setup,
            action,
        )
    }
}

/// Whether an event takes the BARs from `before` to `after`, and `action` comes next.
pub open spec fn setup_step(
    resources: VfioPciResources,
    layout: MsixLayout,
    page_size: u64,
    before: SetupState,
    event: SetupEvent,
    after: SetupState,
    action: SetupAction,
) -> bool {
    match event {
        SetupEvent::Begin => {
            &&& after.bars == before.bars
            &&& after.regions == before.regions
            &&& after.same_windows(before)
            &&& bar_sought(resources, 0, after.setup, action)
        },
        SetupEvent::ConfigDword(bar_cfg) => {
            let i = before.setup->bar_index as int;
            if is_io_bar(bar_cfg) {
                &&& after.bars == before.bars
                &&& after.regions == before.regions
                &&& after.same_windows(before)
                &&& bar_sought(resources, i + 1, after.setup, action)
            } else {
                bar_placed(resources, i, bar_cfg, before, after, action)
            }
        },
        SetupEvent::Programmed => {
            let region = before.setup->Program_region;
            bar_continued(
                resources,
                region,
                seq![],
                planned_requests(resources, layout, page_size, region),
                before,
                after,
                action,
            )
        },
        SetupEvent::Area(e) => {
            let region = before.setup->Mapping_region;
            let requests = before.setup->requests@;
            let mmaps = region.mmaps@;
            exists|progress: AreaProgress, step: AreaStep|
                {
                    &&& #[trigger] mapping::area_step(
                        requests[mmaps.len() as int],
                        before.setup->progress,
                        e,
                        progress,
                        step,
                    )
                    &&& match step {
                        AreaStep::Mapped(mmap) => bar_continued(
                            resources,
                            region,
                            mmaps.push(mmap),
                            requests,
                            before,
                            after,
                            action,
                        ),
                        _ => {
                            &&& after.bars == before.bars
                            &&& after.regions == before.regions
                            &&& after.same_windows(before)
                            &&& carries_out(step, mmaps, action)
                            &&& goes_on(after.setup, region, mmaps, requests, progress)
                        },
                    }
                }
        },
    }
}

/// The requests that map the directly accessed areas of a BAR.
pub open spec fn planned_requests(
    resources: VfioPciResources,
    layout: MsixLayout,
    page_size: u64,
    region: MmioRegion,
) -> Seq<AreaRequest> {
    region::mapping_requests(
        resources.regions@[region.index as int],
        layout,
        region.index,
        region.size,
        page_size,
        region.guest_addr,
    )
}

/// Whether the directly accessed areas of a BAR can be mapped without leaving 64 bits.
pub open spec fn planned_mapping_fits(
    resources: VfioPciResources,
    layout: MsixLayout,
    page_size: u64,
    region: MmioRegion,
) -> bool {
    region::mapping_fits(
        resources.regions@[region.index as int],
        layout,
        region.index,
        region.size,
        page_size,
        region.guest_addr,
    )
}

/// Whether mappings expose the areas of the first requests, in their order.
pub open spec fn mmaps_follow(mmaps: Seq<BarMmap>, requests: Seq<AreaRequest>) -> bool {
    &&& mmaps.len() <= requests.len()
    &&& forall|k: int|
        0 <= k < mmaps.len() ==> (#[trigger] mmaps[k]).guest_addr == requests[k].guest_addr
            && mmaps[k].length == requests[k].length
}

/// Whether a BAR is one of the device's, within 64 bits of guest address space.
pub open spec fn bar_wf(resources: VfioPciResources, region: MmioRegion) -> bool {
    &&& region.index < NUM_BAR_REGS
    &&& region.index < resources.regions@.len()
    &&& region.size > 0
    &&& region.guest_addr + region.size <= u64::MAX
}

/// Whether `setup` is one that the BARs of a device can have come to.
pub open spec fn setup_wf(
    resources: VfioPciResources,
    layout: MsixLayout,
    page_size: u64,
    setup: BarSetup,
) -> bool {
    match setup {
        BarSetup::Config { bar_index } => bar_index < NUM_BAR_REGS && resources.region_size(
            bar_index as int,
        ) != 0,
        BarSetup::Program { region } => bar_wf(resources, region) && region.mmaps@.len() == 0,
        BarSetup::Mapping { region, requests, progress } => {
            &&& bar_wf(resources, region)
            &&& planned_mapping_fits(resources, layout, page_size, region)
            &&& requests@ == planned_requests(resources, layout, page_size, region)
            &&& mmaps_follow(region.mmaps@, requests@)
            &&& region.mmaps@.len() < requests@.len()
            &&& !(progress is Fresh)
            &&& !(progress is Closed)
            &&& mapping::callable(requests@[region.mmaps@.len() as int])
        },
        _ => true,
    }
}

/// A BAR whose mappings expose areas that were planned for it is well formed.
proof fn lemma_mapped_bar_wf(
    resources: VfioPciResources,
    layout: MsixLayout,
    page_size: u64,
    bar: MmioRegion,
)
    requires
        layout.wf(),
        align::is_power_of_two(page_size),
        bar_wf(resources, bar),
        planned_mapping_fits(resources, layout, page_size, bar),
        mmaps_follow(bar.mmaps@, planned_requests(resources, layout, page_size, bar)),
    ensures
        device::region_wf(bar, layout),
{
    let info = resources.regions@[bar.index as int];
    let direct = region::direct_areas(info, layout, bar.index, bar.size, page_size);
    let requests = planned_requests(resources, layout, page_size, bar);
    let mapped = device::mapped_areas(bar);
    assert forall|k: int| 0 <= k < bar.mmaps@.len() implies bar.guest_addr
        <= #[trigger] bar.mmaps@[k].guest_addr && mapped[k] == direct[k] by {
        assert(requests[k] == region::area_request(info, bar.guest_addr, direct[k]));
        assert(bar.guest_addr + direct[k].0 <= u64::MAX);
    }
    assert forall|x: int| #[trigger] ranges::areas_have(mapped, x) implies !layout.in_table(
        bar.index,
        x,
    ) && !layout.in_pba(bar.index, x) by {
        let k = choose|k: int| 0 <= k < mapped.len() && ranges::area_has(#[trigger] mapped[k], x);
        assert(bar.mmaps@[k].guest_addr >= bar.guest_addr);
        assert(ranges::area_has(direct[k], x));
        if layout.in_table(bar.index, x) || layout.in_pba(bar.index, x) {
            region::law_msix_is_not_direct(info, layout, bar.index, bar.size, page_size, x);
        }
    }
}

impl VfioPciDevice {
    /// What is set up of the device, with `setup` as how far its BARs have come.
    pub open spec fn setup_state(&self, setup: BarSetup, windows: MmioWindows) -> SetupState {
        SetupState {
            setup,
            bars: self.bars@,
            regions: self.regions@,
            nodes32: allocator::address_nodes(windows.mmio32_memory),
            nodes64: allocator::address_nodes(windows.mmio64_memory),
        }
    }

    /// Looks for the next BAR from `from` on that the device has.
    fn seek_bar(&self, from: u32) -> (next: (BarSetup, SetupAction))
        requires
            from <= NUM_BAR_REGS + 1,
        ensures
            bar_sought(self.resources, from as int, next.0, next.1),
            next.0 matches BarSetup::Config { bar_index } ==> bar_index < NUM_BAR_REGS
                && self.resources.region_size(bar_index as int) != 0,
            next.0 is Config || next.0 is Finished,
    {
        let mut bar_index: u32 = from;
        while bar_index < NUM_BAR_REGS as u32
            invariant
                bar_index <= NUM_BAR_REGS + 1,
                next_bar(self.resources, from as int) == next_bar(self.resources, bar_index as int),
            decreases NUM_BAR_REGS + 1 - bar_index,
        {
            let i = bar_index as usize;
            if i < self.resources.regions.len() && self.resources.regions[i].size != 0 {
                let offset: u32 = PCI_CONFIG_BAR_OFFSET + bar_index * 4;
                return (BarSetup::Config { bar_index }, SetupAction::ReadConfig { offset });
            }
            bar_index = bar_index + 1;
        }
        (BarSetup::Finished, SetupAction::Done)
    }

    /// Allocates guest address space for a memory BAR.
    fn place_bar(&mut self, bar_index: u32, bar_cfg: u32, windows: &mut MmioWindows) -> (next: (
        BarSetup,
        SetupAction,
    ))
        requires
            bar_index < NUM_BAR_REGS,
            old(self).resources.region_size(bar_index as int) != 0,
        ensures
            forall|setup: BarSetup|
                bar_placed(
                    old(self).resources,
                    bar_index as int,
                    bar_cfg,
                    #[trigger] old(self).setup_state(setup, *old(windows)),
                    final(self).setup_state(next.0, *final(windows)),
                    next.1,
                ),
            next.0 matches BarSetup::Program { region } ==> bar_wf(old(self).resources, region)
                && region.mmaps@.len() == 0,
            next.0 is Program || next.0 is Finished,
            final(self).id == old(self).id,
            final(self).sbdf == old(self).sbdf,
            final(self).resources == old(self).resources,
            final(self).regions == old(self).regions,
            final(self).msix_layout == old(self).msix_layout,
            final(self).msix_vectors == old(self).msix_vectors,
            final(self).msix_enabled == old(self).msix_enabled,
    {
        let size = self.resources.regions[bar_index as usize].size;
        let prefetchable = if bar_cfg & 0x8 == 0x8 {
            BarPrefetchable::Yes
        } else {
            BarPrefetchable::No
        };
        // 64-bit BARs go in the 64-bit MMIO window; 32-bit BARs in the 32-bit window.
        let is_64bit = bar_cfg & 0x6 == 0x4;
        let (bar_type, allocated) = if is_64bit {
            (
                PciBarType::Memory64,
                allocator::allocate_first_match(&mut windows.mmio64_memory, size, size),
            )
        } else {
            (
                PciBarType::Memory32,
                allocator::allocate_first_match(&mut windows.mmio32_memory, size, size),
            )
        };
        match allocated {
            Ok(guest_addr) => {
                let setting = BarSetting {
                    bar_idx: bar_index as u8,
                    guest_addr,
                    size,
                    bar_type,
                    prefetchable,
                };
                self.bars.push(setting);
                let region = MmioRegion {
                    index: VFIO_PCI_BAR0_REGION_INDEX + bar_index,
                    guest_addr,
                    size,
                    bar_type,
                    mmaps: Vec::new(),
                };
                (BarSetup::Program { region }, SetupAction::ProgramBar(setting))
            },
            Err(reason) => {
                let error = VfioPciError::BarAllocation(reason);
                (BarSetup::Finished, SetupAction::Failed { error, unmap: Vec::new() })
            },
        }
    }

    /// Whether the areas of a BAR of this device that the guest accesses directly can be mapped
    /// without leaving 64 bits.
    pub fn mapping_fits(&self, region: &MmioRegion, page_size: u64) -> (fits: bool)
        requires
            self.msix_layout.wf(),
            bar_wf(self.resources, *region),
            align::is_power_of_two(page_size),
        ensures
            fits == planned_mapping_fits(self.resources, self.msix_layout, page_size, *region),
    {
        region::check_mapping_fits(
            &self.resources.regions[region.index as usize],
            &self.msix_layout,
            region.index,
            region.size,
            page_size,
            region.guest_addr,
        )
    }

    /// Lists the requests that map the `mmap`'able parts of a single BAR into the guest, carving
    /// out the MSI-X table and PBA pages so they can be trapped and virtualized.
    pub fn map_region(&self, region: &MmioRegion, page_size: u64) -> (requests: Vec<AreaRequest>)
        requires
            self.msix_layout.wf(),
            bar_wf(self.resources, *region),
            align::is_power_of_two(page_size),
            planned_mapping_fits(self.resources, self.msix_layout, page_size, *region),
        ensures
            requests@ == planned_requests(self.resources, self.msix_layout, page_size, *region),
    {
        region::plan_mapping(
            &self.resources.regions[region.index as usize],
            &self.msix_layout,
            region.index,
            region.size,
            page_size,
            region.guest_addr,
        )
    }
}

/// Lists what is to be unmapped where an area of a BAR cannot be mapped.
fn unmap_on_failure(own: Option<(u64, usize)>, mmaps: &Vec<BarMmap>) -> (unmap: Vec<(u64, usize)>)
    ensures
        unmap@ == unmapped_on_failure(own, mmaps@),
{
    let mut unmap: Vec<(u64, usize)> = Vec::new();
    if let Some(own) = own {
        unmap.push(own);
    }
    let ghost all = unmapped_on_failure(own, mmaps@);
    let ghost first = unmap@.len();
    let mut i: usize = 0;
    proof {
        assert(unmap@ =~= all.take(first as int));
    }
    while i < mmaps.len()
        invariant
            i <= mmaps@.len(),
            all == unmapped_on_failure(own, mmaps@),
            all.len() == first + mmaps@.len(),
            forall|k: int|
                0 <= k < mmaps@.len() ==> all[first + k] == (
                    (#[trigger] mmaps@[k]).host_addr,
                    mmaps@[k].length,
                ),
            unmap@ == all.take(first + i),
        decreases mmaps@.len() - i,
    {
        unmap.push((mmaps[i].host_addr, mmaps[i].length));
        proof {
            assert(unmap@ =~= all.take(first + i + 1));
        }
        i = i + 1;
    }
    proof {
        assert(all.take(first + i) =~= all);
    }
    unmap
}

/// The action that carries out a step of mapping an area of a BAR that has `mmaps`.
fn carry_out(step: AreaStep, mmaps: &Vec<BarMmap>) -> (action: SetupAction)
    requires
        !(step is Mapped),
    ensures
        carries_out(step, mmaps@, action),
{
    match step {
        AreaStep::Mmap(call) => SetupAction::Mmap(call),
        AreaStep::NextSlot => SetupAction::NextSlot,
        AreaStep::Register(region) => SetupAction::Register(region),
        AreaStep::Failed { error, unmap } => {
            SetupAction::Failed { error, unmap: unmap_on_failure(unmap, mmaps) }
        },
        AreaStep::Mapped(_) => SetupAction::Done,
    }
}

/// How far the BARs have come once an area of a BAR has come as far as `progress`.
fn go_on(region: MmioRegion, requests: Vec<AreaRequest>, progress: AreaProgress) -> (setup:
    BarSetup)
    ensures
        goes_on(setup, region, region.mmaps@, requests@, progress),
        progress is Closed ==> setup is Finished,
        !(progress is Closed) ==> setup == (BarSetup::Mapping { region, requests, progress }),
{
    match progress {
        AreaProgress::Closed => BarSetup::Finished,
        _ => BarSetup::Mapping { region, requests, progress },
    }
}

/// Going on with a BAR does not depend on the mappings that the BAR itself holds.
proof fn lemma_bar_continued(
    resources: VfioPciResources,
    a: MmioRegion,
    b: MmioRegion,
    mmaps: Seq<BarMmap>,
    requests: Seq<AreaRequest>,
    before: SetupState,
    after: SetupState,
    action: SetupAction,
)
    requires
        same_bar(a, b),
        bar_continued(resources, a, mmaps, requests, before, after, action),
    ensures
        bar_continued(resources, b, mmaps, requests, before, after, action),
{
    if mmaps.len() < requests.len() {
        let (progress, step) = choose|progress: AreaProgress, step: AreaStep|
            {
                &&& #[trigger] mapping::area_step(
                    requests[mmaps.len() as int],
                    AreaProgress::Fresh,
                    AreaEvent::Begin,
                    progress,
                    step,
                )
                &&& carries_out(step, mmaps, action)
                &&& goes_on(after.setup, a, mmaps, requests, progress)
            };
        assert(goes_on(after.setup, b, mmaps, requests, progress));
    }
}

impl VfioPciDevice {
    /// Begins the next area of a BAR, or takes the BAR as mapped and looks for the next BAR.
    fn continue_bar(
        &mut self,
        region: MmioRegion,
        requests: Vec<AreaRequest>,
        Ghost(page_size): Ghost<u64>,
    ) -> (next: (BarSetup, SetupAction))
        requires
            old(self).wf(),
            align::is_power_of_two(page_size),
            bar_wf(old(self).resources, region),
            planned_mapping_fits(old(self).resources, old(self).msix_layout, page_size, region),
            requests@ == planned_requests(
                old(self).resources,
                old(self).msix_layout,
                page_size,
                region,
            ),
            mmaps_follow(region.mmaps@, requests@),
        ensures
            forall|setup: BarSetup, windows: MmioWindows|
                bar_continued(
                    old(self).resources,
                    region,
                    region.mmaps@,
                    requests@,
                    #[trigger] old(self).setup_state(setup, windows),
                    final(self).setup_state(next.0, windows),
                    next.1,
                ),
            final(self).wf(),
            setup_wf(old(self).resources, old(self).msix_layout, page_size, next.0),
            final(self).id == old(self).id,
            final(self).sbdf == old(self).sbdf,
            final(self).resources == old(self).resources,
            final(self).bars == old(self).bars,
            final(self).msix_layout == old(self).msix_layout,
            final(self).msix_vectors == old(self).msix_vectors,
            final(self).msix_enabled == old(self).msix_enabled,
    {
        let done = region.mmaps.len();
        if done < requests.len() {
            let (progress, step) = mapping::mmap_area(
                &requests[done],
                AreaProgress::Fresh,
                AreaEvent::Begin,
            );
            let ghost first_step = step;
            let action = carry_out(step, &region.mmaps);
            let ghost mmaps = region.mmaps@;
            let ghost asked = requests@;
            let setup = go_on(region, requests, progress);
            proof {
                assert(mapping::area_step(
                    asked[mmaps.len() as int],
                    AreaProgress::Fresh,
                    AreaEvent::Begin,
                    progress,
                    first_step,
                ));
            }
            return (setup, action);
        }
        let from: u32 = region.index + match region.bar_type {
            // 64-bit BARs consume the next BAR slot for their high dword.
            PciBarType::Memory64 => 2,
            PciBarType::Memory32 => 1,
        };
        proof {
            lemma_mapped_bar_wf(self.resources, self.msix_layout, page_size, region);
        }
        let ghost before = self.regions@;
        self.regions.push(region);
        proof {
            assert forall|i: int| 0 <= i < self.regions@.len() implies device::region_wf(
                #[trigger] self.regions@[i],
                self.msix_layout,
            ) by {
                if i < before.len() {
                    assert(self.regions@[i] == before[i]);
                }
            }
        }
        self.seek_bar(from)
    }

    /// Allocate guest address space for every BAR and map the device memory into the guest.
    ///
    /// Memory BARs that the host kernel allows to be `mmap`'d are mapped directly as KVM memory
    /// regions for exit-less access; the MSI-X table/PBA pages and any non-mappable BARs are left
    /// to be trapped on the MMIO bus. IO BARs are skipped.
    ///
    /// Takes how far the BARs have come and how the last action came out; returns how far they
    /// have then come and what is to be done next.
    pub fn allocate_and_map_bars(
        &mut self,
        setup: BarSetup,
        event: SetupEvent,
        windows: &mut MmioWindows,
        page_size: u64,
    ) -> (next: (BarSetup, SetupAction))
        requires
            old(self).wf(),
            align::is_power_of_two(page_size),
            setup_wf(old(self).resources, old(self).msix_layout, page_size, setup),
            setup_event_fits(setup, event),
            setup matches BarSetup::Program { region } ==> planned_mapping_fits(
                old(self).resources,
                old(self).msix_layout,
                page_size,
                region,
            ),
        ensures
            setup_step(
                old(self).resources,
                old(self).msix_layout,
                page_size,
                old(self).setup_state(setup, *old(windows)),
                event,
                final(self).setup_state(next.0, *final(windows)),
                next.1,
            ),
            final(self).wf(),
            setup_wf(old(self).resources, old(self).msix_layout, page_size, next.0),
            final(self).id == old(self).id,
            final(self).sbdf == old(self).sbdf,
            final(self).resources == old(self).resources,
            final(self).msix_layout == old(self).msix_layout,
            final(self).msix_vectors == old(self).msix_vectors,
            final(self).msix_enabled == old(self).msix_enabled,
    {
        let ghost before = self.setup_state(setup, *windows);
        match (setup, event) {
            (BarSetup::Start, _) => self.seek_bar(0),
            (BarSetup::Config { bar_index }, SetupEvent::ConfigDword(bar_cfg)) => {
                // Only memory BARs are supported for passthrough.
                if bar_cfg & 0x1 == 0x1 {
                    return self.seek_bar(bar_index + 1);
                }
                self.place_bar(bar_index, bar_cfg, windows)
            },
            (BarSetup::Program { region }, _) => {
                let requests = self.map_region(&region, page_size);
                proof {
                    assert(region.mmaps@ =~= seq![]);
                }
                self.continue_bar(region, requests, Ghost(page_size))
            },
            (
                BarSetup::Mapping { region, requests, progress },
                SetupEvent::Area(event),
            ) => {
                let done = region.mmaps.len();
                let ghost bar = region;
                let ghost asked = requests@;
                let (progress, step) = mapping::mmap_area(&requests[done], progress, event);
                match step {
                    AreaStep::Mapped(mmap) => {
                        let mut region = region;
                        region.mmaps.push(mmap);
                        let ghost longer = region;
                        let next = self.continue_bar(region, requests, Ghost(page_size));
                        proof {
                            let after = self.setup_state(next.0, *windows);
                            lemma_bar_continued(
                                self.resources,
                                longer,
                                bar,
                                longer.mmaps@,
                                asked,
                                before,
                                after,
                                next.1,
                            );
                        }
                        next
                    },
                    _ => {
                        let action = carry_out(step, &region.mmaps);
                        (go_on(region, requests, progress), action)
                    },
                }
            },
            (setup, _) => (setup, SetupAction::Done),
        }
    }
}

/// What the register of a BAR says depends on its four low bits alone, whatever address it holds:
/// the lowest says that it is an IO BAR; of the next two, the upper one set and the lower one clear
/// say that a memory BAR has 64 bits; the fourth says that the guest may prefetch from it.
pub proof fn law_bar_register_bits(a: u32, b: u32)
    ensures
        is_io_bar(a) <==> a % 2 == 1,
        bar_type_of(a) == PciBarType::Memory64 <==> a / 2 % 2 == 0 && a / 4 % 2 == 1,
        prefetchable_of(a) == BarPrefetchable::Yes <==> a / 8 % 2 == 1,
        bar_slots(bar_type_of(a)) == if a / 2 % 2 == 0 && a / 4 % 2 == 1 {
            2int
        } else {
            1int
        },
        a % 16 == b % 16 ==> is_io_bar(a) == is_io_bar(b) && bar_type_of(a) == bar_type_of(b)
            && prefetchable_of(a) == prefetchable_of(b),
{
    lemma_bar_register(a);
    lemma_bar_register(b);
    assert(a % 16 == b % 16 ==> a % 2 == b % 2 && a / 2 % 2 == b / 2 % 2 && a / 4 % 2 == b / 4 % 2
        && a / 8 % 2 == b / 8 % 2) by (bit_vector);
}

proof fn lemma_bar_register(c: u32)
    ensures
        (c & 0x1 == 0x1) == (c % 2 == 1),
        (c & 0x6 == 0x4) == (c / 2 % 2 == 0 && c / 4 % 2 == 1),
        (c & 0x8 == 0x8) == (c / 8 % 2 == 1),
{
    assert((c & 0x1 == 0x1) == (c % 2 == 1)) by (bit_vector);
    assert((c & 0x6 == 0x4) == (c / 2 % 2 == 0 && c / 4 % 2 == 1)) by (bit_vector);
    assert((c & 0x8 == 0x8) == (c / 8 % 2 == 1)) by (bit_vector);
}

/// The next BAR from slot `i` on is the first slot for which the kernel reports a size, and six
/// where there is none.
pub proof fn law_next_bar_has_a_size(resources: VfioPciResources, i: int)
    requires
        0 <= i,
    ensures
        ({
            let next = next_bar(resources, i);
            &&& next <= 6
            &&& i <= 6 ==> i <= next
            &&& next < 6 ==> next < resources.regions@.len() && resources.regions@[next].size > 0
            &&& forall|j: int|
                i <= j < next && j < resources.regions@.len() ==> (
                #[trigger] resources.regions@[j]).size == 0
        }),
    decreases NUM_BAR_REGS - i,
{
    if i < NUM_BAR_REGS && resources.region_size(i) == 0 {
        law_next_bar_has_a_size(resources, i + 1);
        let next = next_bar(resources, i);
        assert forall|j: int| i <= j < next && j < resources.regions@.len() implies (
        #[trigger] resources.regions@[j]).size == 0 by {
            if j == i {
                assert(resources.region_size(i) == 0);
            }
        }
    }
}

} // verus!
