use vfio_passthrough::allocator::{AllocError, MmioWindows};
use vfio_passthrough::bars::{BarSetup, SetupAction, SetupEvent};
use vfio_passthrough::device::{
    BarAccess, BarSetting, ConfigRead, ConfigWrite, MsgCtlWrite, MsixSwitch, PciSBDF,
    VfioPciDevice,
};
use vfio_passthrough::error::{IoError, VfioPciError};
use vfio_passthrough::mapping::{AreaEvent, KvmMemoryRegion, MmapCall};
use vfio_passthrough::region::{
    AreaRequest, BarMmap, BarPrefetchable, MmioRegion, PciBarType, RegionInfo, RegionInfoCap,
};
use vfio_passthrough::resources::VfioPciResources;
use vm_allocator::AddressAllocator;

const PAGE: u64 = 0x1000;
const RW_MMAP: u32 = 7;

fn info(size: u64, flags: u32, offset: u64) -> RegionInfo {
    RegionInfo { size, flags, offset, caps: vec![] }
}

fn absent() -> RegionInfo {
    info(0, 0, 0)
}

/// An MSI-X capability at 0x60 with 32 vectors, its table at 0x2000 and its PBA at 0x3000 of BAR 0,
/// and the given BAR registers.
fn config(bars: [u32; 6]) -> impl Fn(u32) -> u32 {
    move |offset| match offset {
        0x04 => 0x0010_0000,
        0x34 => 0x60,
        0x60 => 0x001f_0011,
        0x64 => 0x2000,
        0x68 => 0x3000,
        0x10..=0x27 => bars[((offset - 0x10) / 4) as usize],
        _ => 0,
    }
}

fn device(regions: Vec<RegionInfo>) -> VfioPciDevice {
    let sbdf = PciSBDF { segment: 0, bus: 0, device: 3, function: 0 };
    let path = "/sys/bus/pci/devices/0000:01:00.0".to_string();
    let resources = VfioPciResources::new(path, regions);
    VfioPciDevice::new("gpu0".to_string(), sbdf, resources, &config([0; 6])).unwrap()
}

fn windows() -> MmioWindows {
    MmioWindows {
        mmio32_memory: AddressAllocator::new(0xc000_0000, 0x1000_0000).unwrap(),
        mmio64_memory: AddressAllocator::new(0x40_0000_0000, 0x40_0000_0000).unwrap(),
    }
}

/// A host that maps files at rising addresses, with a limited number of memory slots.
struct Host {
    bars: [u32; 6],
    next_addr: u64,
    next_slot: u32,
    slots: u32,
    mmap_error: Option<(u64, i32)>,
    register_error: Option<u64>,
    programmed: Vec<BarSetting>,
    calls: Vec<MmapCall>,
    registered: Vec<KvmMemoryRegion>,
}

impl Host {
    fn new(bars: [u32; 6]) -> Host {
        Host {
            bars,
            next_addr: 0x7f00_0000_0000,
            next_slot: 8,
            slots: 100,
            mmap_error: None,
            register_error: None,
            programmed: vec![],
            calls: vec![],
            registered: vec![],
        }
    }

    /// Sets up the BARs of a device; returns the error and what is to be unmapped on failure.
    fn set_up(
        &mut self,
        device: &mut VfioPciDevice,
        windows: &mut MmioWindows,
    ) -> Result<(), (VfioPciError, Vec<(u64, usize)>)> {
        let mut setup = BarSetup::Start;
        let mut event = SetupEvent::Begin;
        loop {
            let (next, action) = device.allocate_and_map_bars(setup, event, windows, PAGE);
            event = match action {
                SetupAction::ReadConfig { offset } => {
                    SetupEvent::ConfigDword(self.bars[((offset - 0x10) / 4) as usize])
                }
                SetupAction::ProgramBar(setting) => {
                    self.programmed.push(setting);
                    SetupEvent::Programmed
                }
                SetupAction::Mmap(call) => {
                    self.calls.push(call);
                    SetupEvent::Area(AreaEvent::Mmap(match self.mmap_error {
                        Some((offset, error)) if offset == call.offset as u64 => {
                            Err(IoError::Os(error))
                        }
                        _ => {
                            self.next_addr += 0x100_0000;
                            Ok(self.next_addr)
                        }
                    }))
                }
                SetupAction::NextSlot => {
                    let slot = if self.slots == 0 { None } else { Some(self.next_slot) };
                    self.slots = self.slots.saturating_sub(1);
                    self.next_slot += 1;
                    SetupEvent::Area(AreaEvent::Slot(slot))
                }
                SetupAction::Register(region) => {
                    let failed = self.register_error == Some(region.guest_phys_addr);
                    self.registered.push(region);
                    SetupEvent::Area(AreaEvent::Registered(if failed {
                        Err("EEXIST".to_string())
                    } else {
                        Ok(())
                    }))
                }
                SetupAction::Done => {
                    assert_eq!(next, BarSetup::Finished);
                    return Ok(());
                }
                SetupAction::Failed { error, unmap } => {
                    assert_eq!(next, BarSetup::Finished);
                    return Err((error, unmap));
                }
            };
            setup = next;
        }
    }
}

#[test]
fn new_device_has_no_bars() {
    let device = device(vec![]);
    assert_eq!(device.id(), "gpu0");
    assert_eq!(device.sysfs_path(), "/sys/bus/pci/devices/0000:01:00.0");
    assert!(device.bars.is_empty() && device.regions.is_empty() && !device.msix_enabled);
    assert_eq!(device.msix_layout.table_size, 32 * 16);
    assert_eq!(device.msix_vectors, 32);
    assert_eq!(device.trapped_bus_ranges(), vec![]);
}

#[test]
fn device_without_msix_is_refused() {
    let sbdf = PciSBDF { segment: 0, bus: 0, device: 3, function: 0 };
    let resources = VfioPciResources::new("/p".to_string(), vec![]);
    assert_eq!(
        VfioPciDevice::new("gpu0".to_string(), sbdf, resources, &|_| 0),
        Err(VfioPciError::MissingMsix)
    );
}

/// BAR 0: 32-bit with MSI-X. BAR 1: IO. BAR 2: 64-bit, prefetchable, twice. BAR 4: not mappable.
fn mixed_device() -> (VfioPciDevice, Host) {
    let device = device(vec![
        info(0x8000, RW_MMAP, 0),
        info(0x100, 3, 0x100_0000),
        info(0x10_0000, 5, 0x200_0000),
        info(0x4000, RW_MMAP, 0x300_0000),
        info(0x1000, 3, 0x400_0000),
        absent(),
    ]);
    (device, Host::new([0, 1, 0xc, 0, 0, 0]))
}

#[test]
fn bars_are_placed_and_mapped() {
    let (mut device, mut host) = mixed_device();
    host.set_up(&mut device, &mut windows()).unwrap();
    let setting = |bar_idx, guest_addr, size, bar_type, prefetchable| BarSetting {
        bar_idx,
        guest_addr,
        size,
        bar_type,
        prefetchable,
    };
    let expected = vec![
        setting(0, 0xc000_0000, 0x8000, PciBarType::Memory32, BarPrefetchable::No),
        setting(2, 0x40_0000_0000, 0x10_0000, PciBarType::Memory64, BarPrefetchable::Yes),
        setting(4, 0xc000_8000, 0x1000, PciBarType::Memory32, BarPrefetchable::No),
    ];
    assert_eq!(device.bars, expected);
    assert_eq!(host.programmed, expected);
    let call = |length, prot, offset| MmapCall { length, prot, flags: 1, offset };
    assert_eq!(
        host.calls,
        vec![
            call(0x2000, 3, 0),
            call(0x4000, 3, 0x4000),
            call(0x10_0000, 1, 0x200_0000),
        ]
    );
    let region = |slot, guest_phys_addr, memory_size, userspace_addr| KvmMemoryRegion {
        slot,
        flags: 0,
        guest_phys_addr,
        memory_size,
        userspace_addr,
    };
    assert_eq!(
        host.registered,
        vec![
            region(8, 0xc000_0000, 0x2000, 0x7f00_0100_0000),
            region(9, 0xc000_4000, 0x4000, 0x7f00_0200_0000),
            region(10, 0x40_0000_0000, 0x10_0000, 0x7f00_0300_0000),
        ]
    );
    assert_eq!(
        device.regions[0],
        MmioRegion {
            index: 0,
            guest_addr: 0xc000_0000,
            size: 0x8000,
            bar_type: PciBarType::Memory32,
            mmaps: vec![
                BarMmap {
                    host_addr: 0x7f00_0100_0000,
                    length: 0x2000,
                    guest_addr: 0xc000_0000,
                    slot: 8
                },
                BarMmap {
                    host_addr: 0x7f00_0200_0000,
                    length: 0x4000,
                    guest_addr: 0xc000_4000,
                    slot: 9
                },
            ],
        }
    );
    assert_eq!(device.regions.iter().map(|r| r.index).collect::<Vec<_>>(), vec![0, 2, 4]);
}

#[test]
fn msix_pages_and_unmappable_bars_are_trapped() {
    let (mut device, mut host) = mixed_device();
    host.set_up(&mut device, &mut windows()).unwrap();
    assert_eq!(
        device.trapped_bus_ranges(),
        vec![(0xc000_2000, 0x2000), (0xc000_8000, 0x1000)]
    );
}

#[test]
fn trapped_ranges_do_not_depend_on_the_order_of_mappings() {
    let mut device = device(vec![]);
    let mmap = |guest_addr, length| BarMmap { host_addr: 0, length, guest_addr, slot: 0 };
    device.regions.push(MmioRegion {
        index: 1,
        guest_addr: 0x10_0000,
        size: 0x8000,
        bar_type: PciBarType::Memory32,
        mmaps: vec![mmap(0x10_6000, 0x1000), mmap(0x10_1000, 0x2000)],
    });
    assert_eq!(
        device.trapped_bus_ranges(),
        vec![(0x10_0000, 0x1000), (0x10_3000, 0x3000), (0x10_7000, 0x1000)]
    );
}

#[test]
fn sparse_areas_limit_what_is_mapped() {
    let mut sparse = info(0x8000, 6, 0x1000);
    sparse.caps = vec![
        RegionInfoCap::Other,
        RegionInfoCap::SparseMmap(vec![(0x1000, 0x2000), (0x6000, 0x2000)]),
        RegionInfoCap::SparseMmap(vec![(0, 0x8000)]),
    ];
    let device = device(vec![sparse]);
    let region = MmioRegion {
        index: 0,
        guest_addr: 0xc000_0000,
        size: 0x8000,
        bar_type: PciBarType::Memory32,
        mmaps: vec![],
    };
    assert!(device.mapping_fits(&region, PAGE));
    let request = |offset: u64, length| AreaRequest {
        file_offset: 0x1000 + offset,
        length,
        prot: 2,
        guest_addr: 0xc000_0000 + offset,
    };
    assert_eq!(
        device.map_region(&region, PAGE),
        vec![request(0x1000, 0x1000), request(0x6000, 0x2000)]
    );
    // On larger pages the holes are larger too.
    assert_eq!(device.map_region(&region, 0x4000), vec![request(0x6000, 0x2000)]);
}

#[test]
fn areas_that_leave_64_bits_do_not_fit() {
    let mut sparse = info(0x1000, RW_MMAP, 0x10);
    sparse.caps = vec![RegionInfoCap::SparseMmap(vec![(u64::MAX, 1)])];
    let mut far = info(0x1000, RW_MMAP, 0x10);
    far.caps = vec![RegionInfoCap::SparseMmap(vec![(u64::MAX - 8, 1)])];
    let device = device(vec![sparse, far, info(0x1000, 3, 0)]);
    let region = |index| MmioRegion {
        index,
        guest_addr: 0xc000_0000,
        size: 0x1000,
        bar_type: PciBarType::Memory32,
        mmaps: vec![],
    };
    assert!(!device.mapping_fits(&region(0), PAGE));
    assert!(!device.mapping_fits(&region(1), PAGE));
    assert!(device.mapping_fits(&region(2), PAGE));
}

#[test]
fn address_is_the_lowest_that_fits() {
    let mut windows = windows();
    // The BAR is aligned to its size, and small BARs fill the gap before it.
    let mut first = device(vec![info(0x1000, 0, 0), info(0x8000, 0, 0), info(0x2000, 0, 0)]);
    Host::new([0; 6]).set_up(&mut first, &mut windows).unwrap();
    let addrs = |device: &VfioPciDevice| {
        device.bars.iter().map(|bar| bar.guest_addr).collect::<Vec<_>>()
    };
    assert_eq!(addrs(&first), vec![0xc000_0000, 0xc000_8000, 0xc000_2000]);
    let mut second = device(vec![info(0x1000, 0, 0), info(0x8000, 0, 0)]);
    Host::new([0; 6]).set_up(&mut second, &mut windows).unwrap();
    assert_eq!(addrs(&second), vec![0xc000_1000, 0xc001_0000]);
}

#[test]
fn allocation_errors_end_the_setup() {
    let refused = |size, bar_cfg, window32: (u64, u64), window64: (u64, u64)| {
        let mut windows = MmioWindows {
            mmio32_memory: AddressAllocator::new(window32.0, window32.1).unwrap(),
            mmio64_memory: AddressAllocator::new(window64.0, window64.1).unwrap(),
        };
        let mut device = device(vec![info(size, RW_MMAP, 0)]);
        let (error, unmap) =
            Host::new([bar_cfg, 0, 0, 0, 0, 0]).set_up(&mut device, &mut windows).unwrap_err();
        assert!(unmap.is_empty() && device.bars.is_empty() && device.regions.is_empty());
        error
    };
    let wide = (0, 1 << 40);
    assert_eq!(
        refused(0x3000, 0, wide, wide),
        VfioPciError::BarAllocation(AllocError::InvalidAlignment)
    );
    assert_eq!(
        refused(0x2000, 0, (0x1000, 0x2000), wide),
        VfioPciError::BarAllocation(AllocError::ResourceNotAvailable)
    );
    assert_eq!(
        refused(0x2000, 4, wide, (0x1000, 0x2000)),
        VfioPciError::BarAllocation(AllocError::ResourceNotAvailable)
    );
    assert_eq!(
        refused(0x1000, 0, (u64::MAX - 0xfff, 0x1000), wide),
        VfioPciError::BarAllocation(AllocError::Overflow)
    );
}

#[test]
fn mapping_failures_unmap_the_bar() {
    // The second area of BAR 0 cannot be mapped.
    let (mut device, mut host) = mixed_device();
    host.mmap_error = Some((0x4000, 12));
    assert_eq!(
        host.set_up(&mut device, &mut windows()),
        Err((VfioPciError::Mmap(IoError::Os(12)), vec![(0x7f00_0100_0000, 0x2000)]))
    );
    assert_eq!((device.bars.len(), device.regions.len()), (1, 0));

    // No memory slot is left for BAR 2.
    let (mut device, mut host) = mixed_device();
    host.slots = 2;
    assert_eq!(
        host.set_up(&mut device, &mut windows()),
        Err((VfioPciError::NotEnoughKvmSlots, vec![(0x7f00_0300_0000, 0x10_0000)]))
    );
    assert_eq!((device.bars.len(), device.regions.len()), (2, 1));

    // No memory slot is left for the second area of BAR 0.
    let (mut device, mut host) = mixed_device();
    host.slots = 1;
    assert_eq!(
        host.set_up(&mut device, &mut windows()),
        Err((
            VfioPciError::NotEnoughKvmSlots,
            vec![(0x7f00_0200_0000, 0x4000), (0x7f00_0100_0000, 0x2000)],
        ))
    );
    assert_eq!((device.bars.len(), device.regions.len()), (1, 0));

    // The second area of BAR 0 cannot be registered.
    let (mut device, mut host) = mixed_device();
    host.register_error = Some(0xc000_4000);
    assert_eq!(
        host.set_up(&mut device, &mut windows()),
        Err((
            VfioPciError::RegisterMemoryRegion("EEXIST".to_string()),
            vec![(0x7f00_0200_0000, 0x4000), (0x7f00_0100_0000, 0x2000)],
        ))
    );
    assert_eq!((device.bars.len(), device.regions.len()), (1, 0));
}

#[test]
fn file_offset_past_off_t_is_refused() {
    let mut device = device(vec![info(0x1000, RW_MMAP, 1 << 63)]);
    device.msix_layout.table_bar = 5;
    device.msix_layout.pba_bar = 5;
    assert_eq!(
        Host::new([0; 6]).set_up(&mut device, &mut windows()),
        Err((
            VfioPciError::Mmap(IoError::Other("BAR mapping offset overflows off_t".to_string())),
            vec![],
        ))
    );
}

#[test]
fn last_64_bit_bar_ends_the_setup() {
    let mut infos = vec![absent(), absent(), absent(), absent(), absent()];
    infos.push(info(0x1000, 0, 0));
    let mut device = device(infos);
    Host::new([0, 0, 0, 0, 0, 4]).set_up(&mut device, &mut windows()).unwrap();
    assert_eq!(device.bars.len(), 1);
    assert_eq!(device.bars[0].bar_type, PciBarType::Memory64);
}

#[test]
fn accesses_are_routed() {
    let (mut device, mut host) = mixed_device();
    host.set_up(&mut device, &mut windows()).unwrap();
    // Anywhere in a BAR, as base of the access.
    assert_eq!(device.region_for_addr(0xc000_7fff).unwrap().index, 0);
    assert_eq!(device.region_for_addr(0xc000_8000).unwrap().index, 4);
    assert!(device.region_for_addr(0xc000_9000).is_none());
    assert!(device.region_for_addr(0xbfff_ffff).is_none());
    let base = 0xc000_2000;
    assert_eq!(device.read_bar(base, 0), BarAccess::MsixTable { offset: 0 });
    assert_eq!(device.read_bar(base, 0x1ff), BarAccess::MsixTable { offset: 0x1ff });
    assert_eq!(device.read_bar(base, 0x200), BarAccess::Device { index: 0, offset: 0x2200 });
    assert_eq!(device.write_bar(base, 0x1000), BarAccess::MsixPba { offset: 0 });
    assert_eq!(device.write_bar(base, 0x1007), BarAccess::MsixPba { offset: 7 });
    assert_eq!(device.write_bar(base, 0x1008), BarAccess::Device { index: 0, offset: 0x3008 });
    assert_eq!(
        device.write_bar(0xc000_8000, 0x10),
        BarAccess::Device { index: 4, offset: 0x10 }
    );
    assert_eq!(device.read_bar(0x1000, 0), BarAccess::Unmapped);
    assert_eq!(device.write_bar(0x1000, 0), BarAccess::Unmapped);
    assert!(device.is_msix_table(0, 0x2000) && !device.is_msix_table(1, 0x2000));
    assert!(device.is_msix_pba(0, 0x3007) && !device.is_msix_pba(0, 0x3008));
}

#[test]
fn config_space_is_passed_through_but_for_bars_and_rom() {
    let device = device(vec![]);
    for reg_idx in 0..64 {
        let read = device.read_config_register(reg_idx);
        let write = device.write_config_register(reg_idx, 0, &[1]);
        match reg_idx {
            4..=9 => {
                let bar_idx = (reg_idx - 4) as u8;
                assert_eq!(read, ConfigRead::Bar { bar_idx });
                assert_eq!(write, ConfigWrite::Bar { bar_idx });
            }
            12 => {
                assert_eq!(read, ConfigRead::Zero);
                assert_eq!(write, ConfigWrite::Dropped);
            }
            _ => {
                let offset = u32::from(reg_idx) * 4;
                assert_eq!(read, ConfigRead::Device { offset });
                assert_eq!(
                    write,
                    ConfigWrite::Device {
                        offset: u64::from(offset),
                        msg_ctl: MsgCtlWrite::Untouched
                    }
                );
            }
        }
    }
}

#[test]
fn message_control_is_mirrored() {
    // The register is at 0x62 and 0x63.
    let device = device(vec![]);
    let msg_ctl = |offset, data: &[u8]| match device.write_config_register(0x18, offset, data) {
        ConfigWrite::Device { offset: start, msg_ctl } => {
            assert_eq!(start, 0x60 + u64::from(offset));
            msg_ctl
        }
        other => panic!("{other:?}"),
    };
    assert_eq!(msg_ctl(2, &[0x1f, 0x80]), MsgCtlWrite::Value(0x801f));
    assert_eq!(msg_ctl(0, &[0x11, 0, 0x1f, 0xc0]), MsgCtlWrite::Value(0xc01f));
    assert_eq!(msg_ctl(1, &[0, 0x1f, 0x80]), MsgCtlWrite::Value(0x801f));
    assert_eq!(msg_ctl(0, &[0x11, 0]), MsgCtlWrite::Untouched);
    assert_eq!(msg_ctl(4, &[1, 2]), MsgCtlWrite::Untouched);
    assert_eq!(msg_ctl(2, &[]), MsgCtlWrite::Untouched);
    assert_eq!(msg_ctl(3, &[]), MsgCtlWrite::Partial);
    assert_eq!(msg_ctl(4, &[]), MsgCtlWrite::Untouched);
    // The low byte is read-only: it is that of the number of vectors less one.
    assert_eq!(msg_ctl(3, &[0x80]), MsgCtlWrite::Value(0x801f));
    assert_eq!(msg_ctl(3, &[0x80, 0x01]), MsgCtlWrite::Value(0x801f));
    assert_eq!(msg_ctl(3, &[0x00]), MsgCtlWrite::Value(0x001f));
    assert_eq!(msg_ctl(2, &[0x1f]), MsgCtlWrite::Partial);
    assert_eq!(msg_ctl(0, &[0x11, 0, 0x1f]), MsgCtlWrite::Partial);
}

#[test]
fn msix_follows_the_guest() {
    let mut device = device(vec![]);
    assert_eq!(device.update_msix_capability(false), MsixSwitch::Keep);
    assert_eq!(device.update_msix_capability(true), MsixSwitch::Enable);
    // The device fails to enable it.
    assert_eq!(
        device.enable_msix(Err("EINVAL".to_string())),
        Err(VfioPciError::Interrupt("EINVAL".to_string()))
    );
    assert_eq!(device.update_msix_capability(true), MsixSwitch::Enable);
    assert_eq!(device.enable_msix(Ok(())), Ok(()));
    assert!(device.msix_enabled);
    assert_eq!(device.update_msix_capability(true), MsixSwitch::Keep);
    assert_eq!(device.update_msix_capability(false), MsixSwitch::Disable);
    device.disable_msix();
    assert_eq!(device.update_msix_capability(false), MsixSwitch::Keep);
}

#[test]
fn vectors_without_a_notifier_are_left_out() {
    assert_eq!(
        VfioPciDevice::irq_notifiers(&[Some("a"), None, Some("b"), Some("a"), None]),
        vec!["a", "b", "a"]
    );
    assert_eq!(VfioPciDevice::irq_notifiers::<u8>(&[]), Vec::<u8>::new());
}
