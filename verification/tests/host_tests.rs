use vfio_bindings::bindings::vfio;
use vfio_passthrough::bars::VFIO_PCI_BAR0_REGION_INDEX;
use vfio_passthrough::error::{IoError, VfioPciError};
use vfio_passthrough::mapping::{
    mmap_area, AreaEvent, AreaProgress, AreaStep, KvmMemoryRegion, MmapCall, MAP_SHARED,
};
use vfio_passthrough::region::{
    AreaRequest, BarMmap, RegionInfo, PROT_READ, PROT_WRITE, VFIO_REGION_INFO_FLAG_MMAP,
    VFIO_REGION_INFO_FLAG_READ, VFIO_REGION_INFO_FLAG_WRITE,
};
use vfio_passthrough::resources::{AssignEvent, Assignment, VfioError, VfioPciResources};

#[test]
fn constants_are_those_of_the_host() {
    assert_eq!(VFIO_REGION_INFO_FLAG_READ, vfio::VFIO_REGION_INFO_FLAG_READ);
    assert_eq!(VFIO_REGION_INFO_FLAG_WRITE, vfio::VFIO_REGION_INFO_FLAG_WRITE);
    assert_eq!(VFIO_REGION_INFO_FLAG_MMAP, vfio::VFIO_REGION_INFO_FLAG_MMAP);
    assert_eq!(VFIO_PCI_BAR0_REGION_INDEX, vfio::VFIO_PCI_BAR0_REGION_INDEX);
    assert_eq!(PROT_READ, libc::PROT_READ);
    assert_eq!(PROT_WRITE, libc::PROT_WRITE);
    assert_eq!(MAP_SHARED, libc::MAP_SHARED);
}

fn request() -> AreaRequest {
    AreaRequest { file_offset: 0x5000, length: 0x2000, prot: 3, guest_addr: 0xc000_0000 }
}

#[test]
fn area_is_mapped_in_three_calls() {
    let request = request();
    let (progress, step) = mmap_area(&request, AreaProgress::Fresh, AreaEvent::Begin);
    assert_eq!(
        step,
        AreaStep::Mmap(MmapCall { length: 0x2000, prot: 3, flags: 1, offset: 0x5000 })
    );
    let (progress, step) = mmap_area(&request, progress, AreaEvent::Mmap(Ok(0x7000)));
    assert_eq!(step, AreaStep::NextSlot);
    let (progress, step) = mmap_area(&request, progress, AreaEvent::Slot(Some(7)));
    assert_eq!(
        step,
        AreaStep::Register(KvmMemoryRegion {
            slot: 7,
            flags: 0,
            guest_phys_addr: 0xc000_0000,
            memory_size: 0x2000,
            userspace_addr: 0x7000,
        })
    );
    let (progress, step) = mmap_area(&request, progress, AreaEvent::Registered(Ok(())));
    assert_eq!(progress, AreaProgress::Closed);
    assert_eq!(
        step,
        AreaStep::Mapped(BarMmap {
            host_addr: 0x7000,
            length: 0x2000,
            guest_addr: 0xc000_0000,
            slot: 7
        })
    );
}

#[test]
fn area_failures() {
    let fail = |progress, event| {
        let (after, step) = mmap_area(&request(), progress, event);
        assert_eq!(after, AreaProgress::Closed);
        match step {
            AreaStep::Failed { error, unmap } => (error, unmap),
            other => panic!("{other:?}"),
        }
    };
    assert_eq!(
        fail(AreaProgress::Mapping, AreaEvent::Mmap(Err(IoError::Os(22)))),
        (VfioPciError::Mmap(IoError::Os(22)), None)
    );
    assert_eq!(
        fail(AreaProgress::Slotting { host_addr: 0x7000 }, AreaEvent::Slot(None)),
        (VfioPciError::NotEnoughKvmSlots, Some((0x7000, 0x2000)))
    );
    assert_eq!(
        fail(
            AreaProgress::Registering { host_addr: 0x7000, slot: 1 },
            AreaEvent::Registered(Err("no".to_string()))
        ),
        (VfioPciError::RegisterMemoryRegion("no".to_string()), Some((0x7000, 0x2000)))
    );
}

#[test]
fn device_is_assigned_in_four_calls() {
    let path = "/sys/bus/pci/devices/0000:01:00.0";
    let bar = || RegionInfo { size: 0x1000, flags: 7, offset: 0, caps: vec![] };
    let next = |stage, event| VfioPciResources::advance(path, stage, event).unwrap();
    let stage = next(Assignment::CreateKvmDevice, AssignEvent::Done);
    assert_eq!(stage, Assignment::CreateContainer);
    let stage = next(stage, AssignEvent::Done);
    assert_eq!(stage, Assignment::OpenDevice);
    let stage = next(stage, AssignEvent::Opened(vec![bar()]));
    assert_eq!(stage, Assignment::MapGuestMemory(vec![bar()]));
    let stage = next(stage, AssignEvent::Done);
    assert_eq!(
        stage,
        Assignment::Assigned(VfioPciResources { path: path.to_string(), regions: vec![bar()] })
    );
}

#[test]
fn failed_calls_are_told_apart() {
    let fail = |stage| {
        VfioPciResources::advance("/p", stage, AssignEvent::Failed("no".to_string())).unwrap_err()
    };
    let no = || "no".to_string();
    assert_eq!(fail(Assignment::CreateKvmDevice), VfioError::CreateKvmDevice(no()));
    assert_eq!(fail(Assignment::CreateContainer), VfioError::CreateContainer(no()));
    assert_eq!(fail(Assignment::OpenDevice), VfioError::OpenDevice(no(), "/p".to_string()));
    assert_eq!(fail(Assignment::MapGuestMemory(vec![])), VfioError::DmaMap(no()));
}
