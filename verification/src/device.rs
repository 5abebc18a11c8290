//! PCI emulation for a VFIO assigned device.
//!
//! [`VfioPciDevice`] turns a physical PCI function exposed through VFIO into a device the guest
//! can probe and drive as if it were attached to the guest's emulated PCI bus:
//!
//! * **Configuration space** is, with two exceptions, passed straight through to the physical
//!   device. The exceptions are the Base Address Registers (BARs) and the expansion ROM BAR: the
//!   guest sees the guest physical addresses that were assigned, and writes to them never reach
//!   the real device.
//! * **BARs** that can be mapped are mapped straight into the guest address space. The MSI-X table
//!   and PBA live in a trapped hole.
//! * **MSI-X** is enabled and disabled on the physical device as the guest toggles it.

use vstd::prelude::*;

use crate::error::VfioPciError;
use crate::msix;
use crate::msix::MsixLayout;
use crate::ranges;
use crate::region::{BarMmap, BarPrefetchable, MmioRegion, PciBarType};
use crate::resources::VfioPciResources;

verus! {

/// Number of BARs of a PCI function.
pub const NUM_BAR_REGS: u8 = 6;

/// PCI configuration space register index of the first BAR (`0x10 / 4`).
pub const PCI_CONFIG_BAR0_INDEX: u16 = 4;

/// PCI configuration space register index of the expansion ROM BAR (`0x30 / 4`).
pub const PCI_CONFIG_ROM_BAR_INDEX: u16 = 12;

/// Segment/Bus/Device/Function of a PCI function.
#[derive(Debug, Clone, Copy, PartialEq, Eq, Structural)]
pub struct PciSBDF {
    /// The PCI segment.
    pub segment: u16,
    /// The bus of the segment.
    pub bus: u8,
    /// The device on the bus.
    pub device: u8,
    /// The function of the device.
    pub function: u8,
}

/// What the emulated registers of a BAR were set to.
#[derive(Debug, Clone, Copy, PartialEq, Eq, Structural)]
pub struct BarSetting {
    /// Index of the BAR.
    pub bar_idx: u8,
    /// Guest physical base address of the BAR.
    pub guest_addr: u64,
    /// Size of the BAR in bytes.
    pub size: u64,
    /// Address space type of the BAR.
    pub bar_type: PciBarType,
    /// Whether the guest may prefetch from the BAR.
    pub prefetchable: BarPrefetchable,
}

/// A physical PCI device assigned to the guest through VFIO.
#[derive(Debug, PartialEq, Eq)]
pub struct VfioPciDevice {
    /// The id of the device.
    pub id: String,
    /// Segment/Bus/Device/Function assigned on the guest PCI bus.
    pub sbdf: PciSBDF,
    /// The device backing the passthrough.
    pub resources: VfioPciResources,
    /// The settings of the emulated BARs as seen by the guest.
    pub bars: Vec<BarSetting>,
    /// The enumerated MMIO regions (BARs) of the device.
    pub regions: Vec<MmioRegion>,
    /// Location of the MSI-X table and PBA.
    pub msix_layout: MsixLayout,
    /// Number of MSI-X vectors to allocate for the device.
    pub msix_vectors: u16,
    /// Whether MSI-X has been enabled on the physical device.
    pub msix_enabled: bool,
}

/// Where an access to a configuration register goes.
#[derive(Debug, Clone, Copy, PartialEq, Eq, Structural)]
pub enum ConfigRead {
    /// To the emulated register of a BAR.
    Bar { bar_idx: u8 },
    /// Nowhere: the register reads as zero.
    Zero,
    /// To the configuration space of the physical device, at a byte offset.
    Device { offset: u32 },
}

/// What a write to configuration space does to the MSI-X message control register.
#[derive(Debug, Clone, Copy, PartialEq, Eq, Structural)]
pub enum MsgCtlWrite {
    /// It does not touch the register.
    Untouched,
    /// It touches the register, but does not hold its high byte; the low byte is read-only.
    Partial,
    /// It gives the register this value.
    Value(u16),
}

/// Where a write to a configuration register goes.
#[derive(Debug, Clone, Copy, PartialEq, Eq, Structural)]
pub enum ConfigWrite {
    /// To the emulated register of a BAR.
    Bar { bar_idx: u8 },
    /// Nowhere.
    Dropped,
    /// To the configuration space of the physical device, at a byte offset. Once it is done, the
    /// message control register follows, and MSI-X is switched where it was touched.
    Device { offset: u64, msg_ctl: MsgCtlWrite },
}

/// Where an access to a trapped byte of a BAR goes.
#[derive(Debug, Clone, Copy, PartialEq, Eq, Structural)]
pub enum BarAccess {
    /// Nowhere: a read gives zeros, a write is dropped.
    Unmapped,
    /// To the virtualized MSI-X table, at an offset in it.
    MsixTable { offset: u64 },
    /// To the virtualized PBA, at an offset in it.
    MsixPba { offset: u64 },
    /// To a region of the physical device, at an offset in it.
    Device { index: u32, offset: u64 },
}

/// How MSI-X is to be switched on the physical device.
#[derive(Debug, Clone, Copy, PartialEq, Eq, Structural)]
pub enum MsixSwitch {
    /// Not at all.
    Keep,
    /// It is to be enabled.
    Enable,
    /// It is to be disabled.
    Disable,
}

/// The part of a BAR that a mapping exposes, as an area of the BAR.
pub open spec fn mapped_area(region: MmioRegion, mmap: BarMmap) -> (u64, u64) {
    ((mmap.guest_addr - region.guest_addr) as u64, mmap.length as u64)
}

/// The parts of a BAR that the guest accesses directly, as areas of the BAR.
pub open spec fn mapped_areas(region: MmioRegion) -> Seq<(u64, u64)> {
    region.mmaps@.map_values(|mmap: BarMmap| mapped_area(region, mmap))
}

/// Whether a BAR lies within 64 bits of guest address space, its mappings do not start below it,
/// and none of them exposes a byte of the MSI-X table or of the PBA.
pub open spec fn region_wf(region: MmioRegion, layout: MsixLayout) -> bool {
    &&& region.size > 0
    &&& region.guest_addr + region.size <= u64::MAX
    &&& forall|i: int|
        0 <= i < region.mmaps@.len() ==> region.guest_addr <= (#[trigger] region.mmaps@[i]).guest_addr
    &&& forall|x: int|
        #![trigger ranges::areas_have(mapped_areas(region), x)]
        ranges::areas_have(mapped_areas(region), x) ==> !layout.in_table(region.index, x)
            && !layout.in_pba(region.index, x)
}

/// Whether a BAR contains a guest physical address.
pub open spec fn region_has(region: MmioRegion, addr: int) -> bool {
    region.guest_addr <= addr < region.guest_addr + region.size
}

/// The areas of guest address space at which a BAR must be trapped.
pub open spec fn trapped_of(region: MmioRegion) -> Seq<(u64, u64)> {
    ranges::gaps_of(region.size, ranges::sorted_pairs(mapped_areas(region))).map_values(
        |area: (u64, u64)| ((region.guest_addr + area.0) as u64, area.1),
    )
}

/// The areas of guest address space at which the BARs must be trapped, BAR by BAR.
pub open spec fn trapped_areas(regions: Seq<MmioRegion>) -> Seq<(u64, u64)>
    decreases regions.len(),
{
    if regions.len() == 0 {
        seq![]
    } else {
        trapped_areas(regions.drop_last()) + trapped_of(regions.last())
    }
}

/// Whether region `i` is the first one that contains `addr`.
pub open spec fn first_region(regions: Seq<MmioRegion>, addr: u64, i: int) -> bool {
    &&& 0 <= i < regions.len()
    &&& region_has(regions[i], addr as int)
    &&& forall|j: int| 0 <= j < i ==> !region_has(#[trigger] regions[j], addr as int)
}

/// The first region that contains `addr`, if there is one.
pub open spec fn region_of(regions: Seq<MmioRegion>, addr: u64) -> Option<MmioRegion> {
    if exists|i: int| first_region(regions, addr, i) {
        Some(regions[choose|i: int| first_region(regions, addr, i)])
    } else {
        None
    }
}

/// Where an access at `offset` from the guest address `base` goes.
pub open spec fn bar_access(
    regions: Seq<MmioRegion>,
    layout: MsixLayout,
    base: u64,
    offset: u64,
) -> BarAccess {
    match region_of(regions, base) {
        None => BarAccess::Unmapped,
        Some(region) => {
            let bar_offset = base - region.guest_addr + offset;
            if layout.in_table(region.index, bar_offset) {
                BarAccess::MsixTable { offset: (bar_offset - layout.table_offset) as u64 }
            } else if layout.in_pba(region.index, bar_offset) {
                BarAccess::MsixPba { offset: (bar_offset - layout.pba_offset) as u64 }
            } else {
                BarAccess::Device { index: region.index, offset: bar_offset as u64 }
            }
        },
    }
}

/// Whether a configuration register is that of a BAR.
pub open spec fn is_bar_register(reg_idx: u16) -> bool {
    PCI_CONFIG_BAR0_INDEX <= reg_idx < PCI_CONFIG_BAR0_INDEX + NUM_BAR_REGS
}

/// Where a read of a configuration register goes.
pub open spec fn config_read(reg_idx: u16) -> ConfigRead {
    if is_bar_register(reg_idx) {
        ConfigRead::Bar { bar_idx: (reg_idx - PCI_CONFIG_BAR0_INDEX) as u8 }
    } else if reg_idx == PCI_CONFIG_ROM_BAR_INDEX {
        ConfigRead::Zero
    } else {
        ConfigRead::Device { offset: (reg_idx * 4) as u32 }
    }
}

/// What a write of `data` at byte `start` of configuration space does to the message control
/// register, the two bytes that follow the first two of the MSI-X capability. The high byte carries
/// the enable and function mask bits. The low byte is read-only: where the write does not hold it,
/// it is the low byte of the number of vectors less one.
pub open spec fn msg_ctl_write(layout: MsixLayout, start: int, data: Seq<u8>) -> MsgCtlWrite {
    let register = layout.cap_offset + 2;
    if start < register + 2 && start + data.len() > register {
        let high = register + 1 - start;
        if high < data.len() {
            let low = if high > 0 {
                data[high - 1] as int
            } else {
                (layout.vectors() - 1) % 0x100
            };
            MsgCtlWrite::Value((low + 0x100 * data[high]) as u16)
        } else {
            MsgCtlWrite::Partial
        }
    } else {
        MsgCtlWrite::Untouched
    }
}

/// Where a write of `data` at `offset` in a configuration register goes.
pub open spec fn config_write(
    layout: MsixLayout,
    reg_idx: u16,
    offset: u8,
    data: Seq<u8>,
) -> ConfigWrite {
    if is_bar_register(reg_idx) {
        ConfigWrite::Bar { bar_idx: (reg_idx - PCI_CONFIG_BAR0_INDEX) as u8 }
    } else if reg_idx == PCI_CONFIG_ROM_BAR_INDEX {
        ConfigWrite::Dropped
    } else {
        let start = reg_idx * 4 + offset;
        ConfigWrite::Device { offset: start as u64, msg_ctl: msg_ctl_write(layout, start, data) }
    }
}

/// How MSI-X is to be switched where the guest has it `wanted` and the device has it `enabled`.
pub open spec fn msix_switch(wanted: bool, enabled: bool) -> MsixSwitch {
    if wanted && !enabled {
        MsixSwitch::Enable
    } else if !wanted && enabled {
        MsixSwitch::Disable
    } else {
        MsixSwitch::Keep
    }
}

/// The notifiers among `slots`, in their order.
pub open spec fn present<T>(slots: Seq<Option<T>>) -> Seq<T>
    decreases slots.len(),
{
    if slots.len() == 0 {
        seq![]
    } else {
        match slots.last() {
            Some(slot) => present(slots.drop_last()).push(slot),
            None => present(slots.drop_last()),
        }
    }
}

impl VfioPciDevice {
    /// Whether the layout is one that a capability can describe, the vectors are as many as it
    /// announces, and every BAR is well formed.
    pub open spec fn wf(&self) -> bool {
        &&& self.msix_layout.wf()
        &&& self.msix_vectors == self.msix_layout.vectors()
        &&& forall|i: int|
            0 <= i < self.regions@.len() ==> region_wf(#[trigger] self.regions@[i], self.msix_layout)
    }

    /// Create a new passthrough device for the function described by `resources`.
    ///
    /// This parses the device's MSI-X capability and says how many MSI-X vectors match it. BAR
    /// allocation and mapping is performed separately once the device is attached to a segment.
    /// `read_config_dword` reads the dword at a byte offset of the device's configuration space.
    pub fn new<F: Fn(u32) -> u32>(
        id: String,
        sbdf: PciSBDF,
        resources: VfioPciResources,
        read_config_dword: &F,
    ) -> (device: Result<Self, VfioPciError>)
        requires
            forall|offset: u32|
                offset <= msix::LAST_CAPABILITY_READ ==> #[trigger] call_requires(
                    *read_config_dword,
                    (offset,),
                ),
        ensures
            forall|config: spec_fn(u32) -> u32| #[trigger]
                msix::reads_from(*read_config_dword, config) ==> match msix::msix_capability(
                    config,
                ) {
                    Some(layout) => device matches Ok(made) && made.msix_layout == layout,
                    None => device matches Err(VfioPciError::MissingMsix),
                },
            match device {
                Ok(made) => {
                    &&& made.wf()
                    &&& made.id == id
                    &&& made.sbdf == sbdf
                    &&& made.resources == resources
                    &&& made.bars@ == Seq::<BarSetting>::empty()
                    &&& made.regions@ == Seq::<MmioRegion>::empty()
                    &&& msix::layout_was_read(*read_config_dword, made.msix_layout)
                    &&& made.msix_vectors == made.msix_layout.vectors()
                    &&& !made.msix_enabled
                },
                Err(error) => error == VfioPciError::MissingMsix && msix::no_msix_was_read(
                    *read_config_dword,
                ),
            },
    {
        match msix::parse_msix_capability(read_config_dword) {
            Some(msix_layout) => Ok(
                VfioPciDevice {
                    id,
                    sbdf,
                    resources,
                    bars: Vec::new(),
                    regions: Vec::new(),
                    msix_layout,
                    msix_vectors: (msix_layout.table_size / msix::MSIX_TABLE_ENTRY_SIZE) as u16,
                    msix_enabled: false,
                },
            ),
            None => Err(VfioPciError::MissingMsix),
        }
    }

    /// The id of this device.
    pub fn id(&self) -> (id: &str)
        ensures
            id@ == self.id@,
    {
        self.id.as_str()
    }

    /// The host sysfs path of the assigned device.
    pub fn sysfs_path(&self) -> (path: &str)
        ensures
            path@ == self.resources.path@,
    {
        self.resources.path.as_str()
    }

    /// Number of MSI-X vectors the device requires, as reported by its MSI-X capability.
    ///
    /// Returns `None` if the device has no MSI-X capability.
    pub fn required_msix_vectors<F: Fn(u32) -> u32>(read_config_dword: &F) -> (vectors: Option<u16>)
        requires
            forall|offset: u32|
                offset <= msix::LAST_CAPABILITY_READ ==> #[trigger] call_requires(
                    *read_config_dword,
                    (offset,),
                ),
        ensures
            forall|config: spec_fn(u32) -> u32| #[trigger]
                msix::reads_from(*read_config_dword, config) ==> vectors == msix::required_vectors(
                    config,
                ),
            forall|config: spec_fn(u32) -> u32| #[trigger]
                msix::reads_from(*read_config_dword, config) ==> match msix::msix_capability(
                    config,
                ) {
                    Some(layout) => vectors == Some(layout.vectors() as u16),
                    None => vectors is None,
                },
            match vectors {
                Some(n) => exists|layout: MsixLayout| #[trigger]
                    msix::layout_was_read(*read_config_dword, layout) && layout.wf() && n
                        == layout.vectors(),
                None => msix::no_msix_was_read(*read_config_dword),
            },
    {
        match msix::parse_msix_capability(read_config_dword) {
            Some(layout) => Some((layout.table_size / msix::MSIX_TABLE_ENTRY_SIZE) as u16),
            None => None,
        }
    }

    /// Find the region (BAR) that contains the given guest physical address.
    pub fn region_for_addr(&self, addr: u64) -> (region: Option<&MmioRegion>)
        ensures
            match region {
                Some(found) => region_of(self.regions@, addr) == Some(*found) && region_has(
                    *found,
                    addr as int,
                ) && self.regions@.contains(*found),
                None => region_of(self.regions@, addr) is None,
            },
    {
        let mut i: usize = 0;
        while i < self.regions.len()
            invariant
                i <= self.regions@.len(),
                forall|j: int| 0 <= j < i ==> !region_has(#[trigger] self.regions@[j], addr as int),
            decreases self.regions@.len() - i,
        {
            let region = &self.regions[i];
            if addr >= region.guest_addr && addr - region.guest_addr < region.size {
                proof {
                    assert(first_region(self.regions@, addr, i as int));
                    let k = choose|k: int| first_region(self.regions@, addr, k);
                    assert(k == i) by {
                        if k < i {
                            assert(!region_has(self.regions@[k], addr as int));
                        } else if i < k {
                            assert(!region_has(self.regions@[i as int], addr as int));
                        }
                    }
                }
                return Some(region);
            }
            i = i + 1;
        }
        None
    }

    /// Whether the given BAR offset falls within the MSI-X table.
    pub fn is_msix_table(&self, region_index: u32, offset: u64) -> (inside: bool)
        requires
            self.msix_layout.wf(),
        ensures
            inside == self.msix_layout.in_table(region_index, offset as int),
    {
        region_index == self.msix_layout.table_bar && offset >= self.msix_layout.table_offset
            && offset < self.msix_layout.table_offset + self.msix_layout.table_size
    }

    /// Whether the given BAR offset falls within the MSI-X PBA.
    pub fn is_msix_pba(&self, region_index: u32, offset: u64) -> (inside: bool)
        requires
            self.msix_layout.wf(),
        ensures
            inside == self.msix_layout.in_pba(region_index, offset as int),
    {
        region_index == self.msix_layout.pba_bar && offset >= self.msix_layout.pba_offset && offset
            < self.msix_layout.pba_offset + self.msix_layout.pba_size
    }

    /// Where an access at `offset` from the guest address `base` goes.
    fn route_access(&self, base: u64, offset: u64) -> (access: BarAccess)
        requires
            self.msix_layout.wf(),
            region_of(self.regions@, base) matches Some(region) ==> base - region.guest_addr
                + offset <= u64::MAX,
        ensures
            access == bar_access(self.regions@, self.msix_layout, base, offset),
    {
        let region = match self.region_for_addr(base) {
            Some(region) => region,
            None => return BarAccess::Unmapped,
        };
        let bar_offset: u64 = base - region.guest_addr + offset;
        if self.is_msix_table(region.index, bar_offset) {
            BarAccess::MsixTable { offset: bar_offset - self.msix_layout.table_offset }
        } else if self.is_msix_pba(region.index, bar_offset) {
            BarAccess::MsixPba { offset: bar_offset - self.msix_layout.pba_offset }
        } else {
            BarAccess::Device { index: region.index, offset: bar_offset }
        }
    }

    /// Where a guest read at `offset` from the guest address `base` is answered from.
    pub fn read_bar(&self, base: u64, offset: u64) -> (access: BarAccess)
        requires
            self.msix_layout.wf(),
            region_of(self.regions@, base) matches Some(region) ==> base - region.guest_addr
                + offset <= u64::MAX,
        ensures
            access == bar_access(self.regions@, self.msix_layout, base, offset),
    {
        self.route_access(base, offset)
    }

    /// Where a guest write at `offset` from the guest address `base` goes.
    pub fn write_bar(&self, base: u64, offset: u64) -> (access: BarAccess)
        requires
            self.msix_layout.wf(),
            region_of(self.regions@, base) matches Some(region) ==> base - region.guest_addr
                + offset <= u64::MAX,
        ensures
            access == bar_access(self.regions@, self.msix_layout, base, offset),
    {
        self.route_access(base, offset)
    }

    /// Where a guest read of a configuration register is answered from.
    pub fn read_config_register(&self, reg_idx: u16) -> (read: ConfigRead)
        ensures
            read == config_read(reg_idx),
    {
        if reg_idx >= PCI_CONFIG_BAR0_INDEX && reg_idx < PCI_CONFIG_BAR0_INDEX
            + NUM_BAR_REGS as u16 {
            return ConfigRead::Bar { bar_idx: (reg_idx - PCI_CONFIG_BAR0_INDEX) as u8 };
        }
        if reg_idx == PCI_CONFIG_ROM_BAR_INDEX {
            return ConfigRead::Zero;
        }
        ConfigRead::Device { offset: reg_idx as u32 * 4 }
    }

    /// Where a guest write of `data` at `offset` in a configuration register goes.
    pub fn write_config_register(&self, reg_idx: u16, offset: u8, data: &[u8]) -> (write:
        ConfigWrite)
        requires
            self.msix_layout.wf(),
            config_read(reg_idx) is Device ==> reg_idx * 4 + offset + data@.len() <= u32::MAX,
        ensures
            write == config_write(self.msix_layout, reg_idx, offset, data@),
    {
        if reg_idx >= PCI_CONFIG_BAR0_INDEX && reg_idx < PCI_CONFIG_BAR0_INDEX
            + NUM_BAR_REGS as u16 {
            // Trap BAR writes into the virtualized BAR registers; never reprogram the real device.
            return ConfigWrite::Bar { bar_idx: (reg_idx - PCI_CONFIG_BAR0_INDEX) as u8 };
        }
        if reg_idx == PCI_CONFIG_ROM_BAR_INDEX {
            // The expansion ROM BAR is not exposed to the guest.
            return ConfigWrite::Dropped;
        }
        // The message control register carries the MSI-X enable and function mask bits.
        let register: u32 = self.msix_layout.cap_offset as u32 + 2;
        let start: u32 = reg_idx as u32 * 4 + offset as u32;
        let end: u32 = start + data.len() as u32;
        let mut msg_ctl = MsgCtlWrite::Untouched;
        if start < register + 2 && end > register {
            let high: usize = (register + 1 - start) as usize;
            if high < data.len() {
                let low: u16 = if high > 0 {
                    data[high - 1] as u16
                } else {
                    ((self.msix_layout.table_size / msix::MSIX_TABLE_ENTRY_SIZE - 1) % 0x100) as u16
                };
                msg_ctl = MsgCtlWrite::Value(low + 0x100 * (data[high] as u16));
            } else {
                msg_ctl = MsgCtlWrite::Partial;
            }
        }
        ConfigWrite::Device { offset: start as u64, msg_ctl }
    }

    /// React to a guest write to the MSI-X capability's message control register: enable or
    /// disable MSI-X on the physical device as the guest toggles the enable bit.
    pub fn update_msix_capability(&self, wanted: bool) -> (switch: MsixSwitch)
        ensures
            switch == msix_switch(wanted, self.msix_enabled),
    {
        if wanted && !self.msix_enabled {
            MsixSwitch::Enable
        } else if !wanted && self.msix_enabled {
            MsixSwitch::Disable
        } else {
            MsixSwitch::Keep
        }
    }

    /// The notifiers to program the physical device's MSI-X interrupts with: those of the vectors
    /// that have one, in the order of the vectors.
    pub fn irq_notifiers<T: Copy>(vectors: &[Option<T>]) -> (notifiers: Vec<T>)
        ensures
            notifiers@ == present(vectors@),
    {
        let mut notifiers: Vec<T> = Vec::new();
        let mut i: usize = 0;
        proof {
            assert(notifiers@ =~= present(vectors@.take(0)));
        }
        while i < vectors.len()
            invariant
                i <= vectors@.len(),
                notifiers@ == present(vectors@.take(i as int)),
            decreases vectors@.len() - i,
        {
            proof {
                assert(vectors@.take(i as int + 1).drop_last() =~= vectors@.take(i as int));
            }
            if let Some(notifier) = vectors[i] {
                notifiers.push(notifier);
            }
            i = i + 1;
        }
        proof {
            assert(vectors@.take(i as int) =~= vectors@);
        }
        notifiers
    }

    /// Takes note of how programming the physical device's MSI-X interrupts came out.
    pub fn enable_msix(&mut self, outcome: Result<(), String>) -> (res: Result<(), VfioPciError>)
        ensures
            match outcome {
                Ok(_) => res is Ok,
                Err(message) => res == Err::<(), VfioPciError>(VfioPciError::Interrupt(message)),
            },
            final(self).msix_enabled == enabled_after(
                MsixSwitch::Enable,
                old(self).msix_enabled,
                outcome is Ok,
            ),
            final(self).id == old(self).id,
            final(self).sbdf == old(self).sbdf,
            final(self).resources == old(self).resources,
            final(self).bars == old(self).bars,
            final(self).regions == old(self).regions,
            final(self).msix_layout == old(self).msix_layout,
            final(self).msix_vectors == old(self).msix_vectors,
    {
        match outcome {
            Ok(_) => {
                self.msix_enabled = true;
                Ok(())
            },
            Err(message) => Err(VfioPciError::Interrupt(message)),
        }
    }

    /// Takes note that the physical device's MSI-X interrupts were disabled. They count as
    /// disabled though the device may have failed to disable them.
    pub fn disable_msix(&mut self)
        ensures
            !final(self).msix_enabled,
            final(self).id == old(self).id,
            final(self).sbdf == old(self).sbdf,
            final(self).resources == old(self).resources,
            final(self).bars == old(self).bars,
            final(self).regions == old(self).regions,
            final(self).msix_layout == old(self).msix_layout,
            final(self).msix_vectors == old(self).msix_vectors,
    {
        self.msix_enabled = false;
    }
}

impl VfioPciDevice {
    /// The guest physical base addresses and sizes of the BAR ranges that must be trapped on the
    /// MMIO bus (the complement of the directly mapped ranges within each BAR).
    pub fn trapped_bus_ranges(&self) -> (trapped: Vec<(u64, u64)>)
        requires
            self.wf(),
        ensures
            trapped@ == trapped_areas(self.regions@),
            forall|addr: int|
                #![trigger ranges::areas_have(trapped@, addr)]
                ranges::areas_have(trapped@, addr) <==> some_region_traps(self.regions@, addr),
    {
        let mut trapped: Vec<(u64, u64)> = Vec::new();
        let mut i: usize = 0;
        proof {
            assert(trapped@ =~= trapped_areas(self.regions@.take(0)));
        }
        while i < self.regions.len()
            invariant
                self.wf(),
                i <= self.regions@.len(),
                trapped@ == trapped_areas(self.regions@.take(i as int)),
            decreases self.regions@.len() - i,
        {
            proof {
                assert(region_wf(self.regions@[i as int], self.msix_layout));
                assert(self.regions@.take(i as int + 1).drop_last() =~= self.regions@.take(
                    i as int,
                ));
            }
            let mut areas = trapped_areas_of(&self.regions[i], Ghost(self.msix_layout));
            trapped.append(&mut areas);
            i = i + 1;
        }
        proof {
            assert(self.regions@.take(i as int) =~= self.regions@);
            assert forall|addr: int| #[trigger]
                ranges::areas_have(trapped@, addr) <==> some_region_traps(self.regions@, addr) by {
                law_trapped_areas(self.regions@, self.msix_layout, addr);
            }
        }
        trapped
    }
}

/// Whether a BAR contains a guest physical address that none of its mappings exposes.
pub open spec fn region_traps(region: MmioRegion, addr: int) -> bool {
    region_has(region, addr) && !ranges::areas_have(mapped_areas(region), addr - region.guest_addr)
}

/// Whether one of the BARs contains a guest physical address that none of its mappings exposes.
pub open spec fn some_region_traps(regions: Seq<MmioRegion>, addr: int) -> bool {
    exists|i: int| 0 <= i < regions.len() && region_traps(#[trigger] regions[i], addr)
}

/// The areas of guest address space at which a BAR must be trapped.
fn trapped_areas_of(region: &MmioRegion, Ghost(layout): Ghost<MsixLayout>) -> (areas: Vec<
    (u64, u64),
>)
    requires
        region_wf(*region, layout),
    ensures
        areas@ == trapped_of(*region),
{
    let mut mapped: Vec<(u64, u64)> = Vec::new();
    let mut i: usize = 0;
    while i < region.mmaps.len()
        invariant
            region_wf(*region, layout),
            i <= region.mmaps@.len(),
            mapped@ == mapped_areas(*region).take(i as int),
        decreases region.mmaps@.len() - i,
    {
        let mmap = region.mmaps[i];
        proof {
            assert(region.guest_addr <= region.mmaps@[i as int].guest_addr);
        }
        mapped.push((mmap.guest_addr - region.guest_addr, mmap.length as u64));
        proof {
            assert(mapped@ =~= mapped_areas(*region).take(i as int + 1));
        }
        i = i + 1;
    }
    proof {
        assert(mapped@ =~= mapped_areas(*region));
    }
    let sorted = ranges::sort_pairs(mapped.as_slice());
    let gaps = ranges::complement_ranges(region.size, sorted.as_slice());
    let mut areas: Vec<(u64, u64)> = Vec::new();
    let mut j: usize = 0;
    while j < gaps.len()
        invariant
            region.guest_addr + region.size <= u64::MAX,
            ranges::areas_within(gaps@, 0, region.size as int),
            gaps@ == ranges::gaps_of(region.size, ranges::sorted_pairs(mapped_areas(*region))),
            j <= gaps@.len(),
            areas@ == trapped_of(*region).take(j as int),
        decreases gaps@.len() - j,
    {
        let (offset, len) = gaps[j];
        proof {
            assert(gaps@[j as int].0 + gaps@[j as int].1 <= region.size);
        }
        areas.push((region.guest_addr + offset, len));
        proof {
            assert(areas@ =~= trapped_of(*region).take(j as int + 1));
        }
        j = j + 1;
    }
    proof {
        assert(areas@ =~= trapped_of(*region));
    }
    areas
}

/// A BAR is trapped at exactly those of its addresses that none of its mappings exposes: the
/// direct and the trapped part of a BAR have no byte in common, and together are the whole BAR.
pub proof fn law_bar_is_direct_or_trapped(region: MmioRegion, layout: MsixLayout, addr: int)
    requires
        region_wf(region, layout),
    ensures
        ranges::areas_have(trapped_of(region), addr) <==> region_traps(region, addr),
{
    let mapped = mapped_areas(region);
    let sorted = ranges::sorted_pairs(mapped);
    let gaps = ranges::gaps_of(region.size, sorted);
    let trapped = trapped_of(region);
    let x = addr - region.guest_addr;
    ranges::law_sorted_pairs(mapped, sorted);
    ranges::law_reordered_areas_hold_the_same(mapped, sorted, x);
    ranges::law_gaps_hold_what_is_not_mapped(region.size, sorted, x);
    ranges::law_gaps_are_ordered(region.size, sorted);
    if ranges::areas_have(gaps, x) {
        let i = choose|i: int| 0 <= i < gaps.len() && ranges::area_has(#[trigger] gaps[i], x);
        assert(ranges::area_has(trapped[i], addr));
    }
    if ranges::areas_have(trapped, addr) {
        let i = choose|i: int|
            0 <= i < trapped.len() && ranges::area_has(#[trigger] trapped[i], addr);
        assert(gaps[i].0 + gaps[i].1 <= region.size);
        assert(ranges::area_has(gaps[i], x));
    }
}

/// The trapped areas of all BARs hold exactly the addresses at which one of the BARs is trapped.
pub proof fn law_trapped_areas(regions: Seq<MmioRegion>, layout: MsixLayout, addr: int)
    requires
        forall|i: int| 0 <= i < regions.len() ==> region_wf(#[trigger] regions[i], layout),
    ensures
        ranges::areas_have(trapped_areas(regions), addr) <==> some_region_traps(regions, addr),
    decreases regions.len(),
{
    if regions.len() > 0 {
        let rest = regions.drop_last();
        let last = regions[regions.len() - 1];
        assert forall|i: int| 0 <= i < rest.len() implies region_wf(#[trigger] rest[i], layout) by {
            assert(region_wf(regions[i], layout));
        }
        law_trapped_areas(rest, layout, addr);
        law_bar_is_direct_or_trapped(last, layout, addr);
        ranges::law_joined_areas(trapped_areas(rest), trapped_of(last), addr);
        if some_region_traps(rest, addr) {
            let i = choose|i: int| 0 <= i < rest.len() && region_traps(#[trigger] rest[i], addr);
            assert(region_traps(regions[i], addr));
        }
        if some_region_traps(regions, addr) {
            let i = choose|i: int|
                0 <= i < regions.len() && region_traps(#[trigger] regions[i], addr);
            if i < rest.len() {
                assert(region_traps(rest[i], addr));
            }
        }
    }
}

/// Every byte of the MSI-X table and of the PBA that lies in a BAR of the device is trapped.
pub proof fn law_msix_is_trapped(device: VfioPciDevice, i: int, x: int)
    requires
        device.wf(),
        0 <= i < device.regions@.len(),
        0 <= x < device.regions@[i].size,
        device.msix_layout.in_table(device.regions@[i].index, x) || device.msix_layout.in_pba(
            device.regions@[i].index,
            x,
        ),
    ensures
        ranges::areas_have(trapped_areas(device.regions@), device.regions@[i].guest_addr + x),
{
    let region = device.regions@[i];
    let addr = region.guest_addr + x;
    assert(region_wf(region, device.msix_layout));
    assert(!ranges::areas_have(mapped_areas(region), x));
    assert(region_traps(region, addr));
    law_trapped_areas(device.regions@, device.msix_layout, addr);
}

/// A guest access to a trapped byte of the MSI-X table or of the PBA never reaches the physical
/// device, where no other BAR contains the address.
pub proof fn law_msix_access_is_virtual(device: VfioPciDevice, i: int, base: u64, offset: u64)
    requires
        device.wf(),
        first_region(device.regions@, base, i),
        base - device.regions@[i].guest_addr + offset <= u64::MAX,
    ensures
        bar_access(device.regions@, device.msix_layout, base, offset) is Device
            <==> !device.msix_layout.in_table(
            device.regions@[i].index,
            base - device.regions@[i].guest_addr + offset,
        ) && !device.msix_layout.in_pba(
            device.regions@[i].index,
            base - device.regions@[i].guest_addr + offset,
        ),
{
    let k = choose|k: int| first_region(device.regions@, base, k);
    assert(k == i) by {
        if k < i {
            assert(!region_has(device.regions@[k], base as int));
        } else if i < k {
            assert(!region_has(device.regions@[i], base as int));
        }
    }
}

/// Configuration space is passed straight through to the physical device, but for the BARs and the
/// expansion ROM BAR: a read and a write of the same register reach the device or both do not, and
/// where they do, at the place that the register has there.
pub proof fn law_config_space_is_passed_through(
    layout: MsixLayout,
    reg_idx: u16,
    offset: u8,
    data: Seq<u8>,
)
    ensures
        config_read(reg_idx) is Device <==> !is_bar_register(reg_idx) && reg_idx
            != PCI_CONFIG_ROM_BAR_INDEX,
        config_write(layout, reg_idx, offset, data) is Device <==> config_read(reg_idx) is Device,
        config_read(reg_idx) matches ConfigRead::Device { offset: at } ==> at == reg_idx * 4
            && config_write(layout, reg_idx, offset, data)->offset == at + offset,
        config_read(reg_idx) matches ConfigRead::Bar { bar_idx } ==> bar_idx < NUM_BAR_REGS
            && config_write(layout, reg_idx, offset, data) == (ConfigWrite::Bar { bar_idx }),
{
}

/// Every write that holds the high byte of the message control register, which carries the enable
/// bit, gives the register that byte, however many bytes the write holds; and every write that holds
/// a byte of the register is seen to touch it.
pub proof fn law_enable_bit_is_mirrored(
    layout: MsixLayout,
    reg_idx: u16,
    offset: u8,
    data: Seq<u8>,
)
    requires
        layout.wf(),
        config_read(reg_idx) is Device,
    ensures
        ({
            let start = reg_idx * 4 + offset;
            let register = layout.cap_offset + 2;
            let msg_ctl = config_write(layout, reg_idx, offset, data)->msg_ctl;
            &&& start <= register + 1 < start + data.len() ==> msg_ctl is Value
                && msg_ctl->Value_0 / 0x100 == data[register + 1 - start]
            &&& msg_ctl is Untouched <==> start + data.len() <= register || register + 2 <= start
        }),
{
}

/// Whether the physical device has MSI-X enabled once it was switched, where it had it `enabled`
/// before and enabling it, if that was asked for, `succeeds`.
pub open spec fn enabled_after(switch: MsixSwitch, enabled: bool, succeeds: bool) -> bool {
    match switch {
        MsixSwitch::Keep => enabled,
        MsixSwitch::Enable => succeeds || enabled,
        MsixSwitch::Disable => false,
    }
}

/// Once MSI-X was switched, the physical device has it enabled exactly where the guest wants it,
/// and nothing is left to switch; where it fails to be enabled, it is to be enabled again at the
/// next occasion.
pub proof fn law_msix_follows_the_guest(wanted: bool, enabled: bool, succeeds: bool)
    ensures
        ({
            let switch = msix_switch(wanted, enabled);
            let after = enabled_after(switch, enabled, succeeds);
            if switch is Enable && !succeeds {
                !after && msix_switch(wanted, after) is Enable
            } else {
                after == wanted && msix_switch(wanted, after) is Keep
            }
        }),
{
}

/// Whether a BAR is the one that an access at `base` is to: it holds `base`, and no BAR before it
/// does.
pub open spec fn is_accessed(regions: Seq<MmioRegion>, base: u64, i: int) -> bool {
    &&& 0 <= i < regions.len()
    &&& regions[i].guest_addr <= base < regions[i].guest_addr + regions[i].size
    &&& forall|j: int|
        0 <= j < i ==> !((#[trigger] regions[j]).guest_addr <= base < regions[j].guest_addr
            + regions[j].size)
}

/// An access is routed to the byte that it is to: the address of the BAR, plus where the target
/// starts in the BAR, plus the routed offset, is the accessed address. The target is the MSI-X table
/// where the byte lies in it, else the PBA where it lies in that, else the device.
pub proof fn law_access_keeps_its_place(
    regions: Seq<MmioRegion>,
    layout: MsixLayout,
    base: u64,
    offset: u64,
    i: int,
)
    requires
        is_accessed(regions, base, i),
        base - regions[i].guest_addr + offset <= u64::MAX,
    ensures
        ({
            let bar = regions[i].guest_addr as int;
            let addr = base + offset;
            let in_table = regions[i].index == layout.table_bar && bar + layout.table_offset <= addr
                < bar + layout.table_offset + layout.table_size;
            let in_pba = regions[i].index == layout.pba_bar && bar + layout.pba_offset <= addr < bar
                + layout.pba_offset + layout.pba_size;
            match bar_access(regions, layout, base, offset) {
                BarAccess::Unmapped => false,
                BarAccess::MsixTable { offset: routed } => in_table && bar + layout.table_offset
                    + routed == addr,
                BarAccess::MsixPba { offset: routed } => !in_table && in_pba && bar
                    + layout.pba_offset + routed == addr,
                BarAccess::Device { index, offset: routed } => !in_table && !in_pba && index
                    == regions[i].index && bar + routed == addr,
            }
        }),
{
    assert forall|j: int| 0 <= j < i implies !region_has(#[trigger] regions[j], base as int) by {
        assert(!(regions[j].guest_addr <= base < regions[j].guest_addr + regions[j].size));
    }
    assert(first_region(regions, base, i));
    let k = choose|k: int| first_region(regions, base, k);
    assert(k == i) by {
        if k < i {
            assert(!region_has(regions[k], base as int));
        } else if i < k {
            assert(!region_has(regions[i], base as int));
        }
    }
}

/// An access goes nowhere exactly where no BAR holds its base.
pub proof fn law_access_outside_goes_nowhere(
    regions: Seq<MmioRegion>,
    layout: MsixLayout,
    base: u64,
    offset: u64,
)
    ensures
        bar_access(regions, layout, base, offset) is Unmapped <==> forall|i: int|
            0 <= i < regions.len() ==> !((#[trigger] regions[i]).guest_addr <= base
                < regions[i].guest_addr + regions[i].size),
{
    if exists|i: int| first_region(regions, base, i) {
        let i = choose|i: int| first_region(regions, base, i);
        assert(region_has(regions[i], base as int));
    } else {
        assert forall|i: int| 0 <= i < regions.len() implies !((
        #[trigger] regions[i]).guest_addr <= base < regions[i].guest_addr + regions[i].size) by {
            lemma_none_holds(regions, base, i);
        }
    }
}

proof fn lemma_none_holds(regions: Seq<MmioRegion>, base: u64, i: int)
    requires
        forall|k: int| !first_region(regions, base, k),
        0 <= i < regions.len(),
    ensures
        !region_has(regions[i], base as int),
    decreases i,
{
    assert forall|j: int| 0 <= j < i implies !region_has(#[trigger] regions[j], base as int) by {
        lemma_none_holds(regions, base, j);
    }
    assert(!first_region(regions, base, i));
}

/// Whether a mapping of a BAR exposes a guest physical address.
pub open spec fn exposes(region: MmioRegion, addr: int) -> bool {
    exists|k: int|
        0 <= k < region.mmaps@.len() && (#[trigger] region.mmaps@[k]).guest_addr <= addr
            < region.mmaps@[k].guest_addr + region.mmaps@[k].length
}

/// What the areas of a BAR that are mapped hold is what its mappings expose.
pub proof fn law_mapped_areas_are_exposed(region: MmioRegion, x: int)
    requires
        forall|k: int|
            0 <= k < region.mmaps@.len() ==> region.guest_addr <= (
            #[trigger] region.mmaps@[k]).guest_addr,
    ensures
        ranges::areas_have(mapped_areas(region), x) <==> exposes(region, region.guest_addr + x),
{
    let mapped = mapped_areas(region);
    if ranges::areas_have(mapped, x) {
        let k = choose|k: int| 0 <= k < mapped.len() && ranges::area_has(#[trigger] mapped[k], x);
        assert(region.guest_addr <= region.mmaps@[k].guest_addr);
    }
    if exposes(region, region.guest_addr + x) {
        let k = choose|k: int|
            0 <= k < region.mmaps@.len() && (#[trigger] region.mmaps@[k]).guest_addr
                <= region.guest_addr + x < region.mmaps@[k].guest_addr + region.mmaps@[k].length;
        assert(ranges::area_has(mapped[k], x));
    }
}

/// The trapped areas hold exactly the addresses that lie in a BAR none of whose mappings exposes
/// them.
pub proof fn law_trapped_bytes(regions: Seq<MmioRegion>, layout: MsixLayout, addr: int)
    requires
        forall|i: int| 0 <= i < regions.len() ==> region_wf(#[trigger] regions[i], layout),
    ensures
        ranges::areas_have(trapped_areas(regions), addr) <==> exists|i: int|
            0 <= i < regions.len() && (#[trigger] regions[i]).guest_addr <= addr
                < regions[i].guest_addr + regions[i].size && !exposes(regions[i], addr),
{
    law_trapped_areas(regions, layout, addr);
    assert forall|i: int| 0 <= i < regions.len() implies (region_traps(#[trigger] regions[i], addr)
        <==> regions[i].guest_addr <= addr < regions[i].guest_addr + regions[i].size && !exposes(
        regions[i],
        addr,
    )) by {
        law_mapped_areas_are_exposed(regions[i], addr - regions[i].guest_addr);
    }
    if some_region_traps(regions, addr) {
        let i = choose|i: int| 0 <= i < regions.len() && region_traps(#[trigger] regions[i], addr);
        assert(!exposes(regions[i], addr));
    }
}

/// The trapped areas of some BARs followed by others are those of the ones followed by those of the
/// others.
pub proof fn law_trapped_areas_of_joined_bars(a: Seq<MmioRegion>, b: Seq<MmioRegion>)
    ensures
        trapped_areas(a + b) == trapped_areas(a) + trapped_areas(b),
    decreases b.len(),
{
    if b.len() == 0 {
        assert(a + b =~= a);
        assert(trapped_areas(a) + trapped_areas(b) =~= trapped_areas(a));
    } else {
        law_trapped_areas_of_joined_bars(a, b.drop_last());
        assert((a + b).drop_last() =~= a + b.drop_last());
        assert(trapped_areas(a + b) =~= trapped_areas(a) + trapped_areas(b));
    }
}

/// The trapped areas of one BAR lie in it, in rising order, and where none of its mappings is empty,
/// with a mapped byte between any two.
pub proof fn law_trapped_areas_of_a_bar(region: MmioRegion, layout: MsixLayout)
    requires
        region_wf(region, layout),
    ensures
        ({
            let trapped = trapped_areas(seq![region]);
            &&& ranges::areas_within(
                trapped,
                region.guest_addr as int,
                region.guest_addr + region.size,
            )
            &&& ranges::areas_ordered(trapped)
            &&& (forall|k: int|
                0 <= k < region.mmaps@.len() ==> (#[trigger] region.mmaps@[k]).length > 0)
                ==> forall|i: int, j: int|
                0 <= i < j < trapped.len() ==> (#[trigger] trapped[i]).0 + trapped[i].1 < (
                #[trigger] trapped[j]).0
        }),
{
    let mapped = mapped_areas(region);
    let sorted = ranges::sorted_pairs(mapped);
    let gaps = ranges::gaps_of(region.size, sorted);
    let one = seq![region];
    let trapped = trapped_areas(one);
    assert(one.drop_last() =~= seq![]);
    assert(trapped_areas(one.drop_last()) =~= seq![]);
    assert(trapped =~= trapped_of(region));
    ranges::law_gaps_are_ordered(region.size, sorted);
    ranges::law_sorted_pairs(mapped, sorted);
    assert forall|i: int| 0 <= i < trapped.len() implies (#[trigger] trapped[i]).0
        == region.guest_addr + gaps[i].0 && trapped[i].1 == gaps[i].1 && gaps[i].0 + gaps[i].1
        <= region.size && gaps[i].1 > 0 by {
        assert(gaps[i].0 + gaps[i].1 <= region.size);
    }
    assert forall|i: int, j: int| 0 <= i < j < trapped.len() implies (#[trigger] trapped[i]).0
        + trapped[i].1 <= (#[trigger] trapped[j]).0 by {
        assert(gaps[i].0 + gaps[i].1 <= gaps[j].0);
    }
    if forall|k: int| 0 <= k < region.mmaps@.len() ==> (#[trigger] region.mmaps@[k]).length > 0 {
        sorted.to_multiset_ensures();
        mapped.to_multiset_ensures();
        assert forall|i: int| 0 <= i < sorted.len() implies (#[trigger] sorted[i]).1 > 0 by {
            assert(sorted.contains(sorted[i]));
            assert(mapped.to_multiset().count(sorted[i]) > 0);
            assert(mapped.contains(sorted[i]));
            let k = choose|k: int| 0 <= k < mapped.len() && mapped[k] == sorted[i];
            assert(region.mmaps@[k].length > 0);
        }
        ranges::law_gaps_are_whole(region.size, sorted);
        assert forall|i: int, j: int| 0 <= i < j < trapped.len() implies (#[trigger] trapped[i]).0
            + trapped[i].1 < (#[trigger] trapped[j]).0 by {
            assert(gaps[i].0 + gaps[i].1 < gaps[j].0);
        }
    }
}

/// Where configuration registers go, by their bytes: the six dwords from 0x10 on are those of the
/// BARs, in their order; the dword at 0x30, the expansion ROM BAR, reads as zero and drops writes;
/// every other byte is that of the device at the same place.
pub proof fn law_config_bytes(layout: MsixLayout, reg_idx: u16, offset: u8, data: Seq<u8>)
    ensures
        ({
            let at = reg_idx as int * 4;
            let write = config_write(layout, reg_idx, offset, data);
            match config_read(reg_idx) {
                ConfigRead::Bar { bar_idx } => 0x10 <= at < 0x28 && 0x10 + 4 * bar_idx == at && (
                write matches ConfigWrite::Bar { bar_idx: written } && written == bar_idx),
                ConfigRead::Zero => at == 0x30 && write is Dropped,
                ConfigRead::Device { offset: read } => !(0x10 <= at < 0x28) && at != 0x30 && read
                    == at && (write matches ConfigWrite::Device { offset: start, .. } && start == at
                    + offset),
            }
        }),
{
}

/// The value that a write gives the message control register, byte by byte: each byte that the write
/// holds is the one it writes there, and a low byte that it does not hold is that of the number of
/// vectors less one. A value is given exactly where the write holds the high byte.
pub proof fn law_message_control_bytes(
    layout: MsixLayout,
    reg_idx: u16,
    offset: u8,
    data: Seq<u8>,
)
    requires
        layout.wf(),
        config_read(reg_idx) is Device,
    ensures
        ({
            let start = reg_idx * 4 + offset;
            let low = layout.cap_offset + 2 - start;
            let high = layout.cap_offset + 3 - start;
            let msg_ctl = config_write(layout, reg_idx, offset, data)->msg_ctl;
            &&& msg_ctl is Value <==> 0 <= high < data.len()
            &&& msg_ctl matches MsgCtlWrite::Value(value) ==> {
                &&& value as int / 0x100 == data[high]
                &&& 0 <= low ==> value as int % 0x100 == data[low]
                &&& low < 0 ==> value as int % 0x100 == (layout.table_size as int / 16 - 1) % 0x100
            }
        }),
{
}

/// MSI-X is to be enabled exactly where the guest wants it and the device has it not, and to be
/// disabled exactly where it is the other way round.
pub proof fn law_msix_switch(wanted: bool, enabled: bool, succeeds: bool)
    ensures
        msix_switch(wanted, enabled) is Enable <==> wanted && !enabled,
        msix_switch(wanted, enabled) is Disable <==> !wanted && enabled,
        enabled_after(MsixSwitch::Enable, enabled, succeeds) == (enabled || succeeds),
        !enabled_after(MsixSwitch::Disable, enabled, succeeds),
        enabled_after(MsixSwitch::Keep, enabled, succeeds) == enabled,
{
}

/// The notifiers of some vectors followed by others are those of the ones followed by those of the
/// others; a vector that has a notifier adds it, and one that has none adds nothing.
pub proof fn law_notifiers_of_joined_vectors<T>(a: Seq<Option<T>>, b: Seq<Option<T>>, notifier: T)
    ensures
        present(a + b) == present(a) + present(b),
        present(seq![Some(notifier)]) == seq![notifier],
        present(seq![None::<T>]) == Seq::<T>::empty(),
    decreases b.len(),
{
    assert(seq![Some(notifier)].drop_last() =~= seq![]);
    assert(present(seq![Some(notifier)].drop_last()) =~= Seq::<T>::empty());
    assert(present(seq![Some(notifier)]) =~= seq![notifier]);
    assert(seq![None::<T>].drop_last() =~= seq![]);
    assert(present(seq![None::<T>].drop_last()) =~= Seq::<T>::empty());
    assert(present(seq![None::<T>]) =~= Seq::<T>::empty());
    if b.len() == 0 {
        assert(a + b =~= a);
        assert(present(a) + present(b) =~= present(a));
    } else {
        law_notifiers_of_joined_vectors(a, b.drop_last(), notifier);
        assert((a + b).drop_last() =~= a + b.drop_last());
        assert(present(a + b) =~= present(a) + present(b));
    }
}

} // verus!
